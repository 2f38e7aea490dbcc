//! Control messages as Unix systems lay them out.

use vstd::arithmetic::div_mod::{
    lemma_add_mod_noop, lemma_div_multiples_vanish, lemma_fundamental_div_mod, lemma_mod_adds,
    lemma_mod_multiples_basic, lemma_small_mod,
};
use vstd::arithmetic::mul::lemma_mul_is_commutative;
use vstd::arithmetic::power2::{
    lemma_pow2_adds, lemma_pow2_pos, lemma_pow2_strictly_increases, lemma_pow2_unfold, pow2,
};
use vstd::bits::{
    lemma_u64_low_bits_mask_is_mod, lemma_u64_pow2_no_overflow, lemma_u64_shl_is_mul,
    lemma_u64_shr_is_div, low_bits_mask,
};
use vstd::prelude::*;
use vstd::std_specs::bits::axiom_u64_trailing_zeros;

use super::{
    appended, is_header_of, law_appended_message_is_its_bytes, law_payloads_are_aligned,
    lemma_round_up, lemma_round_up_monotone, Encoder, Layout, Message,
};
use crate::words::{
    law_word_reads_back, lemma_byte_spans, lemma_word_bytes_len, word_bytes, word_to_vec,
    word_value,
};

verus! {

/// The number of trailing zeros of `a | b` is how often two divides both.
proof fn lemma_trailing_zeros_divide(a: u64, b: u64, t: u64)
    requires
        t < 64,
        t > 0 ==> (a | b) << ((64 - t) as u64) == 0,
        ((a | b) >> t) & 1 == 1,
    ensures
        a as nat % pow2(t as nat) == 0,
        b as nat % pow2(t as nat) == 0,
        (a as nat / pow2(t as nat)) % 2 == 1 || (b as nat / pow2(t as nat)) % 2 == 1,
{
    lemma_u64_pow2_no_overflow(t as nat);
    lemma_u64_shl_is_mul(1, t);
    lemma_u64_low_bits_mask_is_mod(a, t as nat);
    lemma_u64_low_bits_mask_is_mod(b, t as nat);
    lemma_u64_shr_is_div(a, t);
    lemma_u64_shr_is_div(b, t);
    lemma_pow2_pos(t as nat);
    let mask = ((1u64 << t) - 1) as u64;
    assert(low_bits_mask(t as nat) == mask);
    assert(a & mask == 0 && b & mask == 0) by (bit_vector)
        requires
            t < 64,
            t > 0 ==> (a | b) << ((64 - t) as u64) == 0,
            mask == ((1u64 << t) - 1) as u64,
    ;
    assert((a >> t) & 1 == 1 || (b >> t) & 1 == 1) by (bit_vector)
        requires
            ((a | b) >> t) & 1 == 1,
    ;
    let (x, y) = (a >> t, b >> t);
    assert(x & 1 == x % 2) by (bit_vector);
    assert(y & 1 == y % 2) by (bit_vector);
}

/// A number whose quotient by a power of two is odd is divided by no larger power of two.
proof fn lemma_odd_quotient_bounds(a: nat, t: nat, k: nat)
    requires
        (a / pow2(t)) % 2 == 1,
        a % pow2(k) == 0,
    ensures
        k <= t,
{
    if k > t {
        let q = a as int / pow2(k) as int;
        let rest = pow2((k - t - 1) as nat);
        lemma_pow2_pos(k);
        lemma_pow2_pos(t);
        lemma_fundamental_div_mod(a as int, pow2(k) as int);
        lemma_pow2_adds(t, (k - t) as nat);
        lemma_pow2_unfold((k - t) as nat);
        let c = 2 * (rest * q);
        assert(a == pow2(t) * c) by (nonlinear_arith)
            requires
                a == pow2(k) * q,
                pow2(k) == pow2(t) * pow2((k - t) as nat),
                pow2((k - t) as nat) == 2 * rest,
                c == 2 * (rest * q),
        ;
        lemma_div_multiples_vanish(c, pow2(t) as int);
    }
}

/// The weaker of two alignments, i.e. the largest power of two dividing both.
pub fn common_align(a: usize, b: usize) -> (r: usize)
    requires
        a != 0 || b != 0,
    ensures
        exists|t: nat| r == #[trigger] pow2(t),
        a as nat % r as nat == 0,
        b as nat % r as nat == 0,
        forall|k: nat|
            a as nat % #[trigger] pow2(k) == 0 && b as nat % pow2(k) == 0 ==> pow2(k) <= r,
{
    let x: u64 = a as u64;
    let y: u64 = b as u64;
    proof {
        assert(x | y != 0) by (bit_vector)
            requires
                x != 0 || y != 0,
        ;
        axiom_u64_trailing_zeros(x | y);
    }
    // The lower of the two lowest set bits decides the trailing zeros of the OR.
    let zeros: u64 = (x | y).trailing_zeros() as u64;
    proof {
        lemma_trailing_zeros_divide(x, y, zeros);
        lemma_u64_pow2_no_overflow(zeros as nat);
        lemma_u64_shl_is_mul(1, zeros);
        lemma_pow2_pos(zeros as nat);
        let p = pow2(zeros as nat);
        assert forall|k: nat| a as nat % #[trigger] pow2(k) == 0 && b as nat % pow2(k)
            == 0 implies pow2(k) <= p by {
            if (a as nat / p) % 2 == 1 {
                lemma_odd_quotient_bounds(a as nat, zeros as nat, k);
            } else {
                lemma_odd_quotient_bounds(b as nat, zeros as nat, k);
            }
            if k < zeros {
                lemma_pow2_strictly_increases(k, zeros as nat);
            }
        }
        // It is no larger than whichever of the two is not zero.
        lemma_fundamental_div_mod(a as int, p as int);
        lemma_fundamental_div_mod(b as int, p as int);
        assert(p <= a || a == 0) by (nonlinear_arith)
            requires
                a == p * (a as int / p as int),
                p > 0,
                a >= 0,
        ;
        assert(p <= b || b == 0) by (nonlinear_arith)
            requires
                b == p * (b as int / p as int),
                p > 0,
                b >= 0,
        ;
    }
    (1u64 << zeros) as usize
}

proof fn lemma_divides_trans(x: nat, y: nat, z: nat)
    requires
        y > 0,
        z > 0,
        x % y == 0,
        y % z == 0,
    ensures
        x % z == 0,
{
    let q = x as int / y as int;
    let c = y as int / z as int;
    lemma_fundamental_div_mod(x as int, y as int);
    lemma_fundamental_div_mod(y as int, z as int);
    assert(x == (c * q) * z) by (nonlinear_arith)
        requires
            x == y * q,
            y == z * c,
    ;
    lemma_mod_multiples_basic(c * q, z as int);
}

proof fn lemma_divides_difference(x: nat, y: nat, z: nat)
    requires
        z > 0,
        x % z == 0,
        (x + y) % z == 0,
    ensures
        y % z == 0,
{
    lemma_mod_adds(x as int, y as int, z as int);
    lemma_small_mod(y % z, z);
    lemma_add_mod_noop(x as int, y as int, z as int);
}

proof fn lemma_smaller_power_divides(k: nat, t: nat)
    requires
        pow2(k) <= pow2(t),
    ensures
        pow2(t) % pow2(k) == 0,
{
    if k > t {
        lemma_pow2_strictly_increases(t, k);
    }
    lemma_pow2_pos(k);
    lemma_pow2_adds(k, (t - k) as nat);
    lemma_mul_is_commutative(pow2(k) as int, pow2((t - k) as nat) as int);
    lemma_mod_multiples_basic(pow2((t - k) as nat) as int, pow2(k) as int);
}

/// The payload that sets the type of service of an IPv4 datagram: an integer on most systems, a
/// single byte on some.
#[derive(Clone, Copy)]
pub enum IpTos {
    Int(i32),
    Byte(u8),
}

/// An IPv4 source address and the interface to send from.
#[derive(Clone, Copy)]
pub struct InPktinfo {
    pub ifindex: i32,
    pub spec_dst: [u8; 4],
    pub addr: [u8; 4],
}

/// An IPv6 source address and the interface to send from.
#[derive(Clone, Copy)]
pub struct In6Pktinfo {
    pub addr: [u8; 16],
    pub ifindex: u32,
}

/// A Unix target: its message layout, and the numbers its headers give to messages and flags.
#[derive(Clone, Copy)]
pub struct Unix {
    pub layout: Layout,
    /// The size of the largest payload we put into, or read out of, a control message
    pub payload_len: usize,
    /// The alignment of a control buffer, that of a `usize`
    pub word: usize,
    pub ipproto_ip: i32,
    pub ipproto_ipv6: i32,
    pub sol_udp: i32,
    pub ip_tos: i32,
    pub ipv6_tclass: i32,
    pub udp_segment: i32,
    pub ip_pktinfo: i32,
    pub ip_recvdstaddr: i32,
    pub ipv6_pktinfo: i32,
    /// Set in the flags when control messages did not fit in the buffer
    pub msg_ctrunc: i32,
}

impl IpTos {
    /// How the payload is stored.
    pub open spec fn bytes(self, big_endian: bool) -> Seq<u8> {
        match self {
            IpTos::Int(ecn) => word_bytes(big_endian, ecn as u32 as nat, 4),
            IpTos::Byte(ecn) => seq![ecn],
        }
    }

    /// How many bytes the payload takes.
    pub open spec fn len(self) -> nat {
        match self {
            IpTos::Int(_) => 4,
            IpTos::Byte(_) => 1,
        }
    }

    proof fn lemma_len(self, big_endian: bool)
        ensures
            self.bytes(big_endian).len() == self.len(),
    {
        if let IpTos::Int(ecn) = self {
            lemma_word_bytes_len(big_endian, ecn as u32 as nat, 4);
        }
    }

    /// How the payload is stored.
    pub fn to_vec(&self, big_endian: bool) -> (r: Vec<u8>)
        ensures
            r@ == self.bytes(big_endian),
    {
        match self {
            IpTos::Int(ecn) => word_to_vec(*ecn as u32 as u64, 4, big_endian),
            IpTos::Byte(ecn) => {
                let mut r: Vec<u8> = Vec::new();
                r.push(*ecn);
                assert(r@ =~= seq![*ecn]);
                r
            },
        }
    }
}

impl InPktinfo {
    /// How the packet info is stored.
    pub open spec fn bytes(self, big_endian: bool) -> Seq<u8> {
        word_bytes(big_endian, self.ifindex as u32 as nat, 4) + self.spec_dst@ + self.addr@
    }

    /// How the packet info is stored.
    pub fn to_vec(&self, big_endian: bool) -> (r: Vec<u8>)
        ensures
            r@ == self.bytes(big_endian),
    {
        let mut r: Vec<u8> = word_to_vec(self.ifindex as u32 as u64, 4, big_endian);
        r.extend_from_slice(&self.spec_dst);
        r.extend_from_slice(&self.addr);
        assert(r@ =~= self.bytes(big_endian));
        r
    }
}

impl In6Pktinfo {
    /// How the packet info is stored.
    pub open spec fn bytes(self, big_endian: bool) -> Seq<u8> {
        self.addr@ + word_bytes(big_endian, self.ifindex as nat, 4)
    }

    /// How the packet info is stored.
    pub fn to_vec(&self, big_endian: bool) -> (r: Vec<u8>)
        ensures
            r@ == self.bytes(big_endian),
    {
        let mut r: Vec<u8> = Vec::new();
        r.extend_from_slice(&self.addr);
        let mut index: Vec<u8> = word_to_vec(self.ifindex as u64, 4, big_endian);
        r.append(&mut index);
        assert(r@ =~= self.bytes(big_endian));
        r
    }
}

impl Unix {
    pub open spec fn wf(self) -> bool {
        &&& self.layout.wf()
        &&& self.word == 4 || self.word == 8
        &&& self.payload_len <= 4096
    }

    /// Whether `r` is the largest power of two that divides the offset of a payload in its
    /// message, the space of a message, and the alignment of a control buffer.
    pub open spec fn is_payload_align(self, r: nat) -> bool {
        &&& exists|t: nat| r == #[trigger] pow2(t)
        &&& self.layout.len_of(0) % r == 0
        &&& self.layout.space_of(1) % r == 0
        &&& self.word as nat % r == 0
        &&& forall|k: nat|
            self.layout.len_of(0) % #[trigger] pow2(k) == 0 && self.layout.space_of(1) % pow2(k)
                == 0 && self.word as nat % pow2(k) == 0 ==> pow2(k) <= r
    }

    /// The alignment a control message payload is guaranteed to have.
    ///
    /// Payloads sit `cmsg_len(0)` into their message and messages a sum of `cmsg_space`s into the
    /// buffer, so it is what those offsets and the alignment of the buffer share.
    pub fn payload_align(&self) -> (r: usize)
        requires
            self.wf(),
        ensures
            self.is_payload_align(r as nat),
            r > 0,
    {
        proof {
            self.layout.lemma_data_offset();
            self.layout.lemma_space_of(1);
        }
        let len: usize = self.layout.cmsg_len(0);
        let space: usize = self.layout.cmsg_space(1);
        let inner: usize = common_align(len, space);
        proof {
            let t = choose|t: nat| inner == #[trigger] pow2(t);
            lemma_pow2_pos(t);
        }
        let r: usize = common_align(inner, self.word);
        proof {
            let t = choose|t: nat| inner == #[trigger] pow2(t);
            let u = choose|u: nat| r == #[trigger] pow2(u);
            lemma_pow2_pos(u);
            lemma_divides_trans(len as nat, inner as nat, r as nat);
            lemma_divides_trans(space as nat, inner as nat, r as nat);
            assert forall|k: nat|
                len as nat % #[trigger] pow2(k) == 0 && space as nat % pow2(k) == 0
                    && self.word as nat % pow2(k) == 0 implies pow2(k) <= r by {
                lemma_smaller_power_divides(k, t);
            }
        }
        r
    }

    /// Space for one control message carrying any of our payloads.
    pub fn message_len(&self) -> (r: usize)
        requires
            self.wf(),
        ensures
            r == self.layout.space_of(self.payload_len as nat),
            r < 8192,
    {
        proof {
            self.layout.lemma_data_offset();
            self.layout.lemma_space_of(self.payload_len as nat);
        }
        self.layout.cmsg_space(self.payload_len)
    }

    /// Space for the control messages one `sendmsg` can carry.
    ///
    /// ECN, GSO segment size and source address, one each; the v4 and v6 forms are exclusive.
    pub fn send_len(&self) -> (r: usize)
        requires
            self.wf(),
        ensures
            r == 3 * self.layout.space_of(self.payload_len as nat),
    {
        3 * self.message_len()
    }

    /// Space for the control messages the kernel can attach to one received datagram.
    ///
    /// TOS or traffic class, packet info, GRO segment size and receive timestamp, one each.
    pub fn recv_len(&self) -> (r: usize)
        requires
            self.wf(),
        ensures
            r == 4 * self.layout.space_of(self.payload_len as nat),
    {
        4 * self.message_len()
    }

    /// The message that sets the ECN codepoint of an IPv4 datagram.
    pub open spec fn ecn_v4(self, ecn: IpTos) -> Message {
        Message {
            level: self.ipproto_ip,
            ty: self.ip_tos,
            payload: ecn.bytes(self.layout.big_endian),
        }
    }

    /// The message that sets the traffic class of an IPv6 datagram.
    pub open spec fn ecn_v6(self, ecn: i32) -> Message {
        Message {
            level: self.ipproto_ipv6,
            ty: self.ipv6_tclass,
            payload: word_bytes(self.layout.big_endian, ecn as u32 as nat, 4),
        }
    }

    /// The message that sets the segment size.
    pub open spec fn segment_size(self, segment_size: u16) -> Message {
        Message {
            level: self.sol_udp,
            ty: self.udp_segment,
            payload: word_bytes(self.layout.big_endian, segment_size as nat, 2),
        }
    }

    /// The message that sets the source address of an IPv4 datagram.
    pub open spec fn pktinfo_v4(self, pktinfo: InPktinfo) -> Message {
        Message {
            level: self.ipproto_ip,
            ty: self.ip_pktinfo,
            payload: pktinfo.bytes(self.layout.big_endian),
        }
    }

    /// The message that sets the source address of an IPv4 datagram where there is no packet
    /// info.
    pub open spec fn src_addr_v4(self, addr: [u8; 4]) -> Message {
        Message { level: self.ipproto_ip, ty: self.ip_recvdstaddr, payload: addr@ }
    }

    /// The message that sets the source address of an IPv6 datagram.
    pub open spec fn pktinfo_v6(self, pktinfo: In6Pktinfo) -> Message {
        Message {
            level: self.ipproto_ipv6,
            ty: self.ipv6_pktinfo,
            payload: pktinfo.bytes(self.layout.big_endian),
        }
    }
}

/// The control messages we send.
impl<'a> Encoder<'a, Unix> {
    /// Sets the ECN codepoint of an IPv4 or IPv4-mapped datagram.
    pub fn push_ecn_v4(&mut self, ecn: IpTos)
        requires
            old(self).wf(),
            old(self).can_push(ecn.len()),
        ensures
            appended(*final(self), *old(self), old(self).platform.ecn_v4(ecn)),
            *final(final(self).hdr) == *final(old(self).hdr),
    {
        proof {
            ecn.lemma_len(self.platform.layout.big_endian);
        }
        let payload: Vec<u8> = ecn.to_vec(self.platform.layout.big_endian);
        self.push(self.platform.ipproto_ip, self.platform.ip_tos, payload.as_slice());
    }

    /// Sets the IPv6 traffic class, which carries the ECN codepoint.
    pub fn push_ecn_v6(&mut self, ecn: i32)
        requires
            old(self).wf(),
            old(self).can_push(4),
        ensures
            appended(*final(self), *old(self), old(self).platform.ecn_v6(ecn)),
            *final(final(self).hdr) == *final(old(self).hdr),
    {
        proof {
            lemma_word_bytes_len(self.platform.layout.big_endian, ecn as u32 as nat, 4);
        }
        let payload: Vec<u8> = word_to_vec(ecn as u32 as u64, 4, self.platform.layout.big_endian);
        self.push(self.platform.ipproto_ipv6, self.platform.ipv6_tclass, payload.as_slice());
    }

    /// Sets the GSO segment size the kernel splits an oversized datagram into.
    pub fn push_segment_size(&mut self, segment_size: u16)
        requires
            old(self).wf(),
            old(self).can_push(2),
        ensures
            appended(*final(self), *old(self), old(self).platform.segment_size(segment_size)),
            *final(final(self).hdr) == *final(old(self).hdr),
    {
        proof {
            lemma_word_bytes_len(self.platform.layout.big_endian, segment_size as nat, 2);
        }
        let payload: Vec<u8> = word_to_vec(segment_size as u64, 2, self.platform.layout.big_endian);
        self.push(self.platform.sol_udp, self.platform.udp_segment, payload.as_slice());
    }

    /// Sets the source address of an IPv4 datagram.
    pub fn push_pktinfo_v4(&mut self, pktinfo: InPktinfo)
        requires
            old(self).wf(),
            old(self).can_push(12),
        ensures
            appended(*final(self), *old(self), old(self).platform.pktinfo_v4(pktinfo)),
            *final(final(self).hdr) == *final(old(self).hdr),
    {
        proof {
            lemma_word_bytes_len(self.platform.layout.big_endian, pktinfo.ifindex as u32 as nat, 4);
        }
        let payload: Vec<u8> = pktinfo.to_vec(self.platform.layout.big_endian);
        self.push(self.platform.ipproto_ip, self.platform.ip_pktinfo, payload.as_slice());
    }

    /// Sets the source address of an IPv4 datagram.
    ///
    /// `IP_RECVDSTADDR` is `IP_SENDSRCADDR` on FreeBSD, the two have the same value.
    pub fn push_src_addr_v4(&mut self, addr: [u8; 4])
        requires
            old(self).wf(),
            old(self).can_push(4),
        ensures
            appended(*final(self), *old(self), old(self).platform.src_addr_v4(addr)),
            *final(final(self).hdr) == *final(old(self).hdr),
    {
        self.push(self.platform.ipproto_ip, self.platform.ip_recvdstaddr, &addr);
    }

    /// Sets the source address of an IPv6 datagram.
    pub fn push_pktinfo_v6(&mut self, pktinfo: In6Pktinfo)
        requires
            old(self).wf(),
            old(self).can_push(20),
        ensures
            appended(*final(self), *old(self), old(self).platform.pktinfo_v6(pktinfo)),
            *final(final(self).hdr) == *final(old(self).hdr),
    {
        proof {
            lemma_word_bytes_len(self.platform.layout.big_endian, pktinfo.ifindex as nat, 4);
        }
        let payload: Vec<u8> = pktinfo.to_vec(self.platform.layout.big_endian);
        self.push(self.platform.ipproto_ipv6, self.platform.ipv6_pktinfo, payload.as_slice());
    }
}

/// Every message that can be sent has a payload, and none is larger than buffers allow for where
/// these have space for the packet info of IPv6.
pub proof fn law_unix_payloads_fit_a_message(
    target: Unix,
    tos: IpTos,
    ecn: i32,
    size: u16,
    v4: InPktinfo,
    addr: [u8; 4],
    v6: In6Pktinfo,
)
    requires
        target.wf(),
        20 <= target.payload_len,
    ensures
        0 < target.ecn_v4(tos).payload.len() == tos.len() <= target.payload_len,
        0 < target.ecn_v6(ecn).payload.len() == 4 <= target.payload_len,
        0 < target.segment_size(size).payload.len() == 2 <= target.payload_len,
        0 < target.pktinfo_v4(v4).payload.len() == 12 <= target.payload_len,
        0 < target.src_addr_v4(addr).payload.len() == 4 <= target.payload_len,
        0 < target.pktinfo_v6(v6).payload.len() == 20 <= target.payload_len,
{
    let big = target.layout.big_endian;
    tos.lemma_len(big);
    lemma_word_bytes_len(big, ecn as u32 as nat, 4);
    lemma_word_bytes_len(big, size as nat, 2);
    lemma_word_bytes_len(big, v4.ifindex as u32 as nat, 4);
    lemma_word_bytes_len(big, v6.ifindex as nat, 4);
}

/// The sum of the space that messages with payloads of these lengths take up.
pub open spec fn total_space(layout: Layout, lens: Seq<nat>) -> nat
    decreases lens.len(),
{
    if lens.len() == 0 {
        0
    } else {
        total_space(layout, lens.drop_last()) + layout.space_of(lens.last())
    }
}

/// A buffer with the space of `count` messages of the largest payload covers any `count` payloads.
pub proof fn law_counted_space_covers_payloads(target: Unix, lens: Seq<nat>, count: nat)
    requires
        target.wf(),
        lens.len() <= count,
        forall|i: int| 0 <= i < lens.len() ==> #[trigger] lens[i] <= target.payload_len,
    ensures
        total_space(target.layout, lens) <= count * target.layout.space_of(
            target.payload_len as nat,
        ),
    decreases lens.len(),
{
    let space = target.layout.space_of(target.payload_len as nat) as int;
    if lens.len() == 0 {
        assert(0 <= count * space) by (nonlinear_arith)
            requires
                space >= 0,
        ;
    } else {
        law_counted_space_covers_payloads(target, lens.drop_last(), (count - 1) as nat);
        lemma_round_up_monotone(
            lens.last(),
            target.payload_len as nat,
            target.layout.unit as nat,
        );
        assert((count - 1) * space + space == count * space) by (nonlinear_arith);
    }
}

/// Every payload of messages stored one after the other is aligned to what payloads are
/// guaranteed to be, in a buffer that is aligned like a `usize`.
pub proof fn law_payloads_have_payload_align(
    target: Unix,
    align: nat,
    base: nat,
    ms: Seq<Message>,
    i: int,
)
    requires
        target.wf(),
        target.is_payload_align(align),
        base % target.word as nat == 0,
        0 <= i <= ms.len(),
    ensures
        (base + target.layout.offset_of(ms, i) + target.layout.data_offset()) % align == 0,
{
    let layout = target.layout;
    let t = choose|t: nat| align == #[trigger] pow2(t);
    let at = layout.offset_of(ms, i) + layout.data_offset();
    lemma_pow2_pos(t);
    layout.lemma_data_offset();
    lemma_round_up(1, layout.unit as nat);
    assert(layout.space_of(1) == layout.len_of(0) + layout.unit);
    lemma_divides_difference(layout.len_of(0), layout.unit as nat, align);
    law_payloads_are_aligned(layout, ms, i);
    lemma_divides_trans(at, layout.unit as nat, align);
    lemma_divides_trans(base, target.word as nat, align);
    lemma_mod_adds(base as int, at as int, align as int);
    lemma_add_mod_noop(base as int, at as int, align as int);
    lemma_small_mod(0, align);
}

/// The type of service of an IPv4 datagram is in the buffer as an IPv4 option, as an integer or as
/// a byte.
pub proof fn law_unix_ecn_v4_is_for_ipv4<'a>(e: &mut Encoder<'a, Unix>, ecn: IpTos)
    requires
        old(e).wf(),
        call_ensures(Encoder::<'a, Unix>::push_ecn_v4, (e, ecn), ()),
    ensures
        is_header_of(
            old(e).layout,
            final(e).header().control@,
            old(e).len as int,
            old(e).platform.ipproto_ip,
            old(e).platform.ip_tos,
            if ecn is Int {
                4
            } else {
                1
            },
        ),
        ({
            let start = old(e).len + old(e).layout.data_offset();
            let buf = final(e).header().control@;
            let big = old(e).platform.layout.big_endian;
            match ecn {
                IpTos::Int(tos) => word_value(big, buf.subrange(start, start + 4)) == tos as u32,
                IpTos::Byte(tos) => buf.subrange(start, start + 1) == seq![tos],
            }
        }),
{
    let m = old(e).platform.ecn_v4(ecn);
    ecn.lemma_len(old(e).platform.layout.big_endian);
    if let IpTos::Int(tos) = ecn {
        lemma_byte_spans();
        law_word_reads_back(old(e).platform.layout.big_endian, tos as u32 as nat, 4);
    }
    law_appended_message_is_its_bytes(*final(e), *old(e), m, 0);
}

/// The traffic class of an IPv6 datagram is in the buffer as an IPv6 option.
pub proof fn law_unix_ecn_v6_is_for_ipv6<'a>(e: &mut Encoder<'a, Unix>, ecn: i32)
    requires
        old(e).wf(),
        call_ensures(Encoder::<'a, Unix>::push_ecn_v6, (e, ecn), ()),
    ensures
        is_header_of(
            old(e).layout,
            final(e).header().control@,
            old(e).len as int,
            old(e).platform.ipproto_ipv6,
            old(e).platform.ipv6_tclass,
            4,
        ),
        ({
            let start = old(e).len + old(e).layout.data_offset();
            let buf = final(e).header().control@;
            let big = old(e).platform.layout.big_endian;
            word_value(big, buf.subrange(start, start + 4)) == ecn as u32
        }),
{
    let m = old(e).platform.ecn_v6(ecn);
    lemma_byte_spans();
    lemma_word_bytes_len(old(e).platform.layout.big_endian, ecn as u32 as nat, 4);
    law_word_reads_back(old(e).platform.layout.big_endian, ecn as u32 as nat, 4);
    law_appended_message_is_its_bytes(*final(e), *old(e), m, 0);
}

/// The segment size is in the buffer as a UDP option.
pub proof fn law_unix_segment_size_is_for_udp<'a>(e: &mut Encoder<'a, Unix>, segment_size: u16)
    requires
        old(e).wf(),
        call_ensures(Encoder::<'a, Unix>::push_segment_size, (e, segment_size), ()),
    ensures
        is_header_of(
            old(e).layout,
            final(e).header().control@,
            old(e).len as int,
            old(e).platform.sol_udp,
            old(e).platform.udp_segment,
            2,
        ),
        ({
            let start = old(e).len + old(e).layout.data_offset();
            let buf = final(e).header().control@;
            let big = old(e).platform.layout.big_endian;
            word_value(big, buf.subrange(start, start + 2)) == segment_size
        }),
{
    let m = old(e).platform.segment_size(segment_size);
    lemma_byte_spans();
    lemma_word_bytes_len(old(e).platform.layout.big_endian, segment_size as nat, 2);
    law_word_reads_back(old(e).platform.layout.big_endian, segment_size as nat, 2);
    law_appended_message_is_its_bytes(*final(e), *old(e), m, 0);
}

/// The source address of an IPv4 datagram is in the buffer as an IPv4 option, behind the interface.
pub proof fn law_unix_pktinfo_v4_is_for_ipv4<'a>(e: &mut Encoder<'a, Unix>, pktinfo: InPktinfo)
    requires
        old(e).wf(),
        call_ensures(Encoder::<'a, Unix>::push_pktinfo_v4, (e, pktinfo), ()),
    ensures
        is_header_of(
            old(e).layout,
            final(e).header().control@,
            old(e).len as int,
            old(e).platform.ipproto_ip,
            old(e).platform.ip_pktinfo,
            12,
        ),
        ({
            let start = old(e).len + old(e).layout.data_offset();
            let buf = final(e).header().control@;
            let big = old(e).platform.layout.big_endian;
            &&& word_value(big, buf.subrange(start, start + 4)) == pktinfo.ifindex as u32
            &&& buf.subrange(start + 4, start + 8) == pktinfo.spec_dst@
            &&& buf.subrange(start + 8, start + 12) == pktinfo.addr@
        }),
{
    let big = old(e).platform.layout.big_endian;
    let m = old(e).platform.pktinfo_v4(pktinfo);
    let index = word_bytes(big, pktinfo.ifindex as u32 as nat, 4);
    lemma_byte_spans();
    lemma_word_bytes_len(big, pktinfo.ifindex as u32 as nat, 4);
    law_word_reads_back(big, pktinfo.ifindex as u32 as nat, 4);
    law_appended_message_is_its_bytes(*final(e), *old(e), m, 0);
    let start = old(e).len + old(e).layout.data_offset();
    let buf = final(e).header().control@;
    let payload = buf.subrange(start, start + 12);
    assert(payload == m.payload);
    assert(buf.subrange(start, start + 4) =~= payload.subrange(0, 4));
    assert(buf.subrange(start + 4, start + 8) =~= payload.subrange(4, 8));
    assert(buf.subrange(start + 8, start + 12) =~= payload.subrange(8, 12));
    assert(payload.subrange(0, 4) =~= index);
    assert(payload.subrange(4, 8) =~= pktinfo.spec_dst@);
    assert(payload.subrange(8, 12) =~= pktinfo.addr@);
}

/// The source address of an IPv4 datagram on its own is in the buffer as an IPv4 option.
pub proof fn law_unix_src_addr_v4_is_for_ipv4<'a>(e: &mut Encoder<'a, Unix>, addr: [u8; 4])
    requires
        old(e).wf(),
        call_ensures(Encoder::<'a, Unix>::push_src_addr_v4, (e, addr), ()),
    ensures
        is_header_of(
            old(e).layout,
            final(e).header().control@,
            old(e).len as int,
            old(e).platform.ipproto_ip,
            old(e).platform.ip_recvdstaddr,
            4,
        ),
        ({
            let start = old(e).len + old(e).layout.data_offset();
            let buf = final(e).header().control@;
            buf.subrange(start, start + 4) == addr@
        }),
{
    let m = old(e).platform.src_addr_v4(addr);
    law_appended_message_is_its_bytes(*final(e), *old(e), m, 0);
}

/// The source address of an IPv6 datagram is in the buffer as an IPv6 option, followed by the
/// interface.
pub proof fn law_unix_pktinfo_v6_is_for_ipv6<'a>(e: &mut Encoder<'a, Unix>, pktinfo: In6Pktinfo)
    requires
        old(e).wf(),
        call_ensures(Encoder::<'a, Unix>::push_pktinfo_v6, (e, pktinfo), ()),
    ensures
        is_header_of(
            old(e).layout,
            final(e).header().control@,
            old(e).len as int,
            old(e).platform.ipproto_ipv6,
            old(e).platform.ipv6_pktinfo,
            20,
        ),
        ({
            let start = old(e).len + old(e).layout.data_offset();
            let buf = final(e).header().control@;
            let big = old(e).platform.layout.big_endian;
            &&& buf.subrange(start, start + 16) == pktinfo.addr@
            &&& word_value(big, buf.subrange(start + 16, start + 20)) == pktinfo.ifindex
        }),
{
    let m = old(e).platform.pktinfo_v6(pktinfo);
    lemma_byte_spans();
    lemma_word_bytes_len(old(e).platform.layout.big_endian, pktinfo.ifindex as nat, 4);
    law_word_reads_back(old(e).platform.layout.big_endian, pktinfo.ifindex as nat, 4);
    law_appended_message_is_its_bytes(*final(e), *old(e), m, 0);
    let start = old(e).len + old(e).layout.data_offset();
    let buf = final(e).header().control@;
    let payload = buf.subrange(start, start + 20);
    assert(payload == m.payload);
    assert(buf.subrange(start, start + 16) =~= payload.take(16));
    assert(payload.take(16) =~= pktinfo.addr@);
    assert(buf.subrange(start + 16, start + 20) =~= payload.skip(16));
    let big = old(e).platform.layout.big_endian;
    assert(payload.skip(16) =~= word_bytes(big, pktinfo.ifindex as nat, 4));
}

/// The alignment of payloads is a power of two that divides what offsets are made of and the
/// alignment of buffers, and no larger one does.
pub proof fn law_payload_align_is_the_largest_shared(target: Unix, align: usize, k: nat)
    requires
        target.wf(),
        call_ensures(Unix::payload_align, (&target,), align),
    ensures
        exists|t: nat| align == #[trigger] pow2(t),
        target.layout.data_offset() % align as nat == 0,
        target.layout.unit as nat % align as nat == 0,
        target.word as nat % align as nat == 0,
        target.layout.data_offset() % pow2(k) == 0 && target.layout.unit as nat % pow2(k) == 0
            && target.word as nat % pow2(k) == 0 ==> pow2(k) <= align,
{
    let layout = target.layout;
    layout.lemma_data_offset();
    lemma_round_up(1, layout.unit as nat);
    assert(layout.len_of(0) == layout.data_offset());
    assert(layout.space_of(1) == layout.data_offset() + layout.unit);
    lemma_divides_difference(layout.data_offset(), layout.unit as nat, align as nat);
    lemma_pow2_pos(k);
    lemma_mod_adds(layout.data_offset() as int, layout.unit as int, pow2(k) as int);
    lemma_add_mod_noop(layout.data_offset() as int, layout.unit as int, pow2(k) as int);
    lemma_small_mod(0, pow2(k));
}

/// Buffers have space for three messages to send and four to receive, of the largest payload.
pub proof fn law_unix_buffers_count_messages(
    target: Unix,
    space: usize,
    send_len: usize,
    recv_len: usize,
)
    requires
        target.wf(),
        call_ensures(Layout::cmsg_space, (&target.layout, target.payload_len), space),
        call_ensures(Unix::send_len, (&target,), send_len),
        call_ensures(Unix::recv_len, (&target,), recv_len),
    ensures
        send_len == 3 * space,
        recv_len == 4 * space,
{
}

} // verus!
