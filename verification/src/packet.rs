//! ICMP Echo packet codec: encoding, decoding, and the Internet checksum.
//!
//! Echo messages for IPv4 (type 8 request, type 0 reply) and IPv6
//! (type 128 request, type 129 reply) share a fixed 8-byte header
//! `{type, code, checksum, identifier, sequence}` followed by an opaque
//! payload. For IPv4 the 16-bit one's-complement Internet checksum is
//! computed over the whole message; for IPv6 the field is left zero
//! because the kernel fills it using the required pseudo-header.

use vstd::prelude::*;

verus! {

/// The four ICMP message types the prober knows.
#[derive(Debug, Clone, Copy, PartialEq, Eq, Structural)]
pub enum IcmpType {
    EchoReply,
    EchoRequest,
    EchoReplyV6,
    EchoRequestV6,
}

impl IcmpType {
    /// The on-wire value of the type octet.
    pub open spec fn spec_value(self) -> u8 {
        match self {
            IcmpType::EchoReply => 0,
            IcmpType::EchoRequest => 8,
            IcmpType::EchoReplyV6 => 129,
            IcmpType::EchoRequestV6 => 128,
        }
    }

    /// On-wire value of the type octet.
    pub fn value(self) -> (r: u8)
        ensures
            r == self.spec_value(),
    {
        match self {
            IcmpType::EchoReply => 0,
            IcmpType::EchoRequest => 8,
            IcmpType::EchoReplyV6 => 129,
            IcmpType::EchoRequestV6 => 128,
        }
    }
}

/// A decoded or to-be-encoded ICMP Echo message.
#[derive(Debug)]
pub struct IcmpPacket {
    pub message_type: u8,
    pub code: u8,
    pub checksum: u16,
    pub identifier: u16,
    pub sequence: u16,
    pub payload: Vec<u8>,
}

/// The 16-bit big-endian value of two consecutive octets.
pub open spec fn be16(hi: u8, lo: u8) -> int {
    (hi as int) * 256 + (lo as int)
}

/// Sum of the big-endian 16-bit words of `data` starting at index `i`;
/// a trailing odd octet counts as the high half of a final word.
pub open spec fn word_sum_from(data: Seq<u8>, i: int) -> int
    decreases data.len() - i,
{
    if i + 1 < data.len() {
        be16(data[i], data[i + 1]) + word_sum_from(data, i + 2)
    } else if i < data.len() {
        (data[i] as int) * 256
    } else {
        0
    }
}

/// Sum of all big-endian 16-bit words of `data`.
pub open spec fn word_sum(data: Seq<u8>) -> int {
    word_sum_from(data, 0)
}

/// End-around-carry folding of a sum into 16 bits.
pub open spec fn fold16(s: int) -> int
    recommends s >= 0,
    decreases s,
{
    if s < 0 {
        0
    } else if s < 0x10000 {
        s
    } else {
        fold16((s % 0x10000) + (s / 0x10000))
    }
}

/// The Internet checksum of `data`: the one's complement of the folded
/// word sum.
pub open spec fn spec_checksum(data: Seq<u8>) -> u16 {
    (0xFFFF - fold16(word_sum(data))) as u16
}

proof fn lemma_word_sum_from_bound(data: Seq<u8>, i: int)
    requires 0 <= i <= data.len() + 1,
    ensures word_sum_from(data, i) >= 0,
            word_sum_from(data, i) <= (data.len() - i + 1) * 0xFFFF,
    decreases data.len() - i,
{
    if i + 1 < data.len() {
        lemma_word_sum_from_bound(data, i + 2);
        assert((data.len() - i + 1) * 0xFFFF == (data.len() - (i + 2) + 1) * 0xFFFF + 2 * 0xFFFF)
            by (nonlinear_arith);
    } else if i < data.len() {
        assert((data[i] as int) * 256 <= 0xFF00) by (nonlinear_arith)
            requires data[i] <= 0xFF;
        assert((data.len() - i + 1) * 0xFFFF >= 0xFFFF) by (nonlinear_arith)
            requires i < data.len();
    } else {
        assert((data.len() - i + 1) * 0xFFFF >= 0) by (nonlinear_arith)
            requires i <= data.len() + 1;
    }
}

proof fn lemma_fold16_range(s: int)
    requires s >= 0,
    ensures 0 <= fold16(s) <= 0xFFFF,
    decreases s,
{
    if s >= 0x10000 {
        lemma_fold16_range((s % 0x10000) + (s / 0x10000));
    }
}

/// Folding into 16 bits with end-around carry keeps the value's residue
/// modulo 0xFFFF, because 0x10000 is congruent to 1.
proof fn lemma_fold16_mod(s: int)
    requires s >= 0,
    ensures fold16(s) % 0xFFFF == s % 0xFFFF,
    decreases s,
{
    if s >= 0x10000 {
        let lo = s % 0x10000;
        let hi = s / 0x10000;
        vstd::arithmetic::div_mod::lemma_fundamental_div_mod(s, 0x10000);
        assert((hi * 0x10000 + lo) % 0xFFFF == (hi + lo) % 0xFFFF) by (nonlinear_arith)
            requires hi >= 0, lo >= 0;
        lemma_fold16_mod(lo + hi);
    }
}

/// A positive sum never folds to zero.
proof fn lemma_fold16_positive(s: int)
    requires s > 0,
    ensures fold16(s) > 0,
    decreases s,
{
    if s >= 0x10000 {
        assert((s % 0x10000) + (s / 0x10000) > 0) by (nonlinear_arith) requires s >= 0x10000;
        lemma_fold16_positive((s % 0x10000) + (s / 0x10000));
    }
}

/// The 16-bit one's-complement Internet checksum of `data`.
///
/// The length bound is the IP maximum packet size; it keeps the running
/// 32-bit sum from overflowing.
pub fn calculate_checksum(data: &[u8]) -> (r: u16)
    requires
        data@.len() <= 65535,
    ensures
        r == spec_checksum(data@),
{
    let len = data.len();
    let mut sum: u32 = 0;
    let mut i: usize = 0;
    while i + 1 < len
        invariant
            len == data@.len() <= 65535,
            i % 2 == 0,
            i <= len + 1,
            sum <= (i as int) * 0xFFFF,
            word_sum(data@) == sum + word_sum_from(data@, i as int),
        decreases len - i,
    {
        proof {
            lemma_word_sum_from_bound(data@, i as int);
            assert((i as int) * 0xFFFF + 0xFFFF == (i + 2) * 0xFFFF - 0xFFFF) by (nonlinear_arith);
            assert((i + 2) * 0xFFFF <= 65537 * 0xFFFF < 0x100000000) by (nonlinear_arith)
                requires i + 2 <= 65537;
        }
        let word: u16 = (data[i] as u16) * 256 + (data[i + 1] as u16);
        sum = sum + (word as u32);
        i = i + 2;
    }
    if i < len {
        proof {
            assert((i as int) * 0xFFFF <= 65535 * 0xFFFF) by (nonlinear_arith) requires i <= 65535;
        }
        sum = sum + (data[i] as u32) * 256;
    }
    assert(sum == word_sum(data@));
    proof {
        lemma_word_sum_from_bound(data@, 0);
    }
    while sum >> 16 != 0
        invariant
            word_sum(data@) >= 0,
            fold16(sum as int) == fold16(word_sum(data@)),
        decreases sum,
    {
        proof {
            assert(sum >> 16 == sum / 0x10000) by (bit_vector);
            assert(sum & 0xFFFF == sum % 0x10000) by (bit_vector);
            assert(sum as int >= 0x10000) by (nonlinear_arith)
                requires sum as int / 0x10000 >= 1;
            assert(sum as int % 0x10000 + sum as int / 0x10000 < sum as int) by (nonlinear_arith)
                requires sum as int >= 0x10000;
        }
        sum = (sum & 0xFFFF) + (sum >> 16);
    }
    proof {
        assert(sum >> 16 == sum / 0x10000) by (bit_vector);
        assert((sum as int) < 0x10000) by (nonlinear_arith)
            requires
                sum as int >= 0,
                sum as int / 0x10000 == 0;
    }
    let low: u16 = sum as u16;
    proof {
        assert(!low == (0xFFFF - low as int) as u16) by (bit_vector);
    }
    !low
}

/// Failure of `IcmpPacket::decode`.
#[derive(Debug, Clone, Copy, PartialEq, Eq, Structural)]
pub enum DecodeError {
    /// The input holds fewer than the 8 header octets.
    TooShort,
}

/// `q` is the decoding of the wire bytes `data`.
pub open spec fn spec_decodes(data: Seq<u8>, q: IcmpPacket) -> bool {
    &&& data.len() >= 8
    &&& q.message_type == data[0]
    &&& q.code == data[1]
    &&& q.checksum == be16(data[2], data[3])
    &&& q.identifier == be16(data[4], data[5])
    &&& q.sequence == be16(data[6], data[7])
    &&& q.payload@ == data.skip(8)
}

impl IcmpPacket {
    /// The payload fits an IP packet beside the 8-byte header.
    pub open spec fn wf(self) -> bool {
        self.payload@.len() <= 65527
    }

    /// The wire bytes with the checksum field still zero.
    pub open spec fn spec_wire_unchecksummed(self) -> Seq<u8> {
        seq![
            self.message_type,
            self.code,
            0u8,
            0u8,
            (self.identifier / 256) as u8,
            (self.identifier % 256) as u8,
            (self.sequence / 256) as u8,
            (self.sequence % 256) as u8,
        ] + self.payload@
    }

    /// The wire bytes of this message: the 8-byte header and payload,
    /// with the Internet checksum filled in for an IPv4 Echo Request and
    /// left zero otherwise.
    pub open spec fn spec_encode(self) -> Seq<u8> {
        let base = self.spec_wire_unchecksummed();
        if self.message_type == IcmpType::EchoRequest.spec_value() {
            let ck = spec_checksum(base);
            base.update(2, (ck / 256) as u8).update(3, (ck % 256) as u8)
        } else {
            base
        }
    }

    /// Serialize the message for the wire.
    pub fn encode(&self) -> (r: Vec<u8>)
        requires
            self.wf(),
        ensures
            r@ == self.spec_encode(),
    {
        let mut out: Vec<u8> = Vec::new();
        out.push(self.message_type);
        out.push(self.code);
        out.push(0);
        out.push(0);
        out.push((self.identifier / 256) as u8);
        out.push((self.identifier % 256) as u8);
        out.push((self.sequence / 256) as u8);
        out.push((self.sequence % 256) as u8);
        let mut k: usize = 0;
        while k < self.payload.len()
            invariant
                k <= self.payload@.len(),
                out@.len() == 8 + k,
                out@ == self.spec_wire_unchecksummed().take(8 + k as int),
            decreases self.payload@.len() - k,
        {
            out.push(self.payload[k]);
            proof {
                assert(out@ =~= self.spec_wire_unchecksummed().take(8 + (k + 1) as int));
            }
            k = k + 1;
        }
        proof {
            assert(out@ =~= self.spec_wire_unchecksummed());
        }
        if self.message_type == 8 {
            let ck = calculate_checksum(out.as_slice());
            out[2] = (ck / 256) as u8;
            out[3] = (ck % 256) as u8;
        }
        out
    }

    /// Parse wire bytes; fails exactly when fewer than 8 octets arrive.
    /// The checksum is read but not validated: the kernel has already
    /// filtered malformed packets on the reply path.
    pub fn decode(data: &[u8]) -> (r: Result<Self, DecodeError>)
        ensures
            r is Ok <==> data@.len() >= 8,
            r matches Ok(q) ==> spec_decodes(data@, q),
    {
        if data.len() < 8 {
            return Err(DecodeError::TooShort);
        }
        let message_type = data[0];
        let code = data[1];
        let checksum = (data[2] as u16) * 256 + (data[3] as u16);
        let identifier = (data[4] as u16) * 256 + (data[5] as u16);
        let sequence = (data[6] as u16) * 256 + (data[7] as u16);
        let payload = vstd::slice::slice_to_vec(vstd::slice::slice_subrange(data, 8, data.len()));
        proof {
            assert(payload@ =~= data@.skip(8));
        }
        Ok(Self { message_type, code, checksum, identifier, sequence, payload })
    }

    /// An Echo Request for the given family with a zero checksum field.
    pub fn new_request(v6: bool, identifier: u16, sequence: u16, payload: Vec<u8>) -> (r: Self)
        ensures
            r.message_type == if v6 {
                IcmpType::EchoRequestV6.spec_value()
            } else {
                IcmpType::EchoRequest.spec_value()
            },
            r.code == 0,
            r.checksum == 0,
            r.identifier == identifier,
            r.sequence == sequence,
            r.payload@ == payload@,
    {
        let message_type = if v6 {
            IcmpType::EchoRequestV6.value()
        } else {
            IcmpType::EchoRequest.value()
        };
        Self { message_type, code: 0, checksum: 0, identifier, sequence, payload }
    }
}

proof fn lemma_word_sum_from_agree(s1: Seq<u8>, s2: Seq<u8>, i: int)
    requires
        s1.len() == s2.len(),
        forall|j: int| i <= j < s1.len() ==> s1[j] == s2[j],
    ensures
        word_sum_from(s1, i) == word_sum_from(s2, i),
    decreases s1.len() - i,
{
    if i + 1 < s1.len() {
        lemma_word_sum_from_agree(s1, s2, i + 2);
    }
}

/// Folding a sum plus the complement of its own fold always yields the
/// all-ones word: the defining property of the Internet checksum.
proof fn lemma_fold16_complement(s: int)
    requires
        s >= 0,
    ensures
        fold16(s + 0xFFFF - fold16(s)) == 0xFFFF,
{
    let f = fold16(s);
    lemma_fold16_range(s);
    lemma_fold16_mod(s);
    let t = s + 0xFFFF - f;
    lemma_fold16_range(t);
    lemma_fold16_mod(t);
    lemma_fold16_positive(t);
    vstd::arithmetic::div_mod::lemma_fundamental_div_mod(s, 0xFFFF);
    vstd::arithmetic::div_mod::lemma_fundamental_div_mod(f, 0xFFFF);
    let q = s / 0xFFFF - f / 0xFFFF + 1;
    assert(t == q * 0xFFFF) by (nonlinear_arith)
        requires
            t == s + 0xFFFF - f,
            s == 0xFFFF * (s / 0xFFFF) + s % 0xFFFF,
            f == 0xFFFF * (f / 0xFFFF) + f % 0xFFFF,
            s % 0xFFFF == f % 0xFFFF,
            q == s / 0xFFFF - f / 0xFFFF + 1;
    assert(t % 0xFFFF == 0) by (nonlinear_arith)
        requires t == q * 0xFFFF, t >= 0;
    if fold16(t) < 0xFFFF {
        vstd::arithmetic::div_mod::lemma_small_mod(fold16(t) as nat, 0xFFFF);
    }
}

/// Summing all 16-bit words of a correctly encoded IPv4 Echo Request,
/// the filled-in checksum field included, and folding the carries yields
/// `0xFFFF`: a receiver's verification of the packet succeeds.
pub proof fn lemma_request_checksum_totals(p: IcmpPacket)
    requires
        p.wf(),
        p.message_type == IcmpType::EchoRequest.spec_value(),
    ensures
        fold16(word_sum(p.spec_encode())) == 0xFFFF,
{
    let base = p.spec_wire_unchecksummed();
    let ck = spec_checksum(base);
    let enc = p.spec_encode();
    assert(base.len() == 8 + p.payload@.len());
    lemma_word_sum_from_bound(base, 0);
    lemma_fold16_range(word_sum(base));
    vstd::arithmetic::div_mod::lemma_fundamental_div_mod(ck as int, 256);
    assert(word_sum_from(base, 0) == be16(base[0], base[1]) + word_sum_from(base, 2));
    assert(word_sum_from(base, 2) == be16(base[2], base[3]) + word_sum_from(base, 4));
    assert(word_sum_from(enc, 0) == be16(enc[0], enc[1]) + word_sum_from(enc, 2));
    assert(word_sum_from(enc, 2) == be16(enc[2], enc[3]) + word_sum_from(enc, 4));
    lemma_word_sum_from_agree(enc, base, 4);
    assert(be16(base[2], base[3]) == 0);
    assert(be16(enc[2], enc[3]) == ck);
    assert(word_sum(enc) == word_sum(base) + ck);
    lemma_fold16_complement(word_sum(base));
}

/// Encoding then decoding an Echo message recovers the same logical
/// packet: type, code, identifier, sequence and payload are unchanged.
pub proof fn lemma_encode_decode_roundtrip(p: IcmpPacket, q: IcmpPacket)
    requires
        p.wf(),
        spec_decodes(p.spec_encode(), q),
    ensures
        q.message_type == p.message_type,
        q.code == p.code,
        q.identifier == p.identifier,
        q.sequence == p.sequence,
        q.payload@ == p.payload@,
{
    let base = p.spec_wire_unchecksummed();
    let enc = p.spec_encode();
    vstd::arithmetic::div_mod::lemma_fundamental_div_mod(p.identifier as int, 256);
    vstd::arithmetic::div_mod::lemma_fundamental_div_mod(p.sequence as int, 256);
    assert(enc[4] == (p.identifier / 256) as u8);
    assert(enc[5] == (p.identifier % 256) as u8);
    assert(enc[6] == (p.sequence / 256) as u8);
    assert(enc[7] == (p.sequence % 256) as u8);
    assert(enc.skip(8) =~= p.payload@);
}

} // verus!
