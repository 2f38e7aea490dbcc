//! Control messages as Windows lays them out.

use vstd::prelude::*;

use super::{lemma_round_up, lemma_round_up_add, round_up};
use super::{
    appended, is_header_of, law_appended_message_is_its_bytes, Encoder, Layout, Message,
};
use crate::words::{
    law_word_reads_back, lemma_byte_spans, lemma_word_bytes_len, word_bytes, word_to_vec,
    word_value,
};

verus! {

/// A Windows target: its word size, and the numbers its headers give to messages and flags.
#[derive(Clone, Copy)]
pub struct Windows {
    /// The size of a `usize`, to which headers and payloads are aligned
    pub word: usize,
    pub ipproto_ip: i32,
    pub ipproto_ipv6: i32,
    pub ipproto_udp: i32,
    pub ip_ecn: i32,
    pub ipv6_ecn: i32,
    pub udp_send_msg_size: i32,
    pub ip_pktinfo: i32,
    pub ipv6_pktinfo: i32,
    /// Set in the flags when control messages did not fit in the buffer
    pub msg_ctrunc: i32,
}

/// An IPv4 source address and the interface to send from.
#[derive(Clone, Copy)]
pub struct InPktinfo {
    pub addr: [u8; 4],
    pub ifindex: u32,
}

/// An IPv6 source address and the interface to send from.
#[derive(Clone, Copy)]
pub struct In6Pktinfo {
    pub addr: [u8; 16],
    pub ifindex: u32,
}

/// The size of the largest payload of a control message.
pub const PAYLOAD_LEN: usize = 20;

fn align_mask(len: usize, word: usize) -> (r: usize)
    requires
        word == 4 || word == 8,
        len + word <= usize::MAX,
    ensures
        r == round_up(len as nat, word as nat),
{
    proof {
        lemma_round_up(len as nat, word as nat);
        let n: usize = (len + word - 1) as usize;
        assert(n & !3usize == n - n % 4) by (bit_vector);
        assert(n & !7usize == n - n % 8) by (bit_vector);
        reveal(round_up);
    }
    (len + word - 1) & !(word - 1)
}

impl Windows {
    pub open spec fn wf(self) -> bool {
        self.word == 4 || self.word == 8
    }

    /// The size of a message header: a length of one word, the level and the type.
    pub open spec fn header_len(self) -> nat {
        (self.word + 8) as nat
    }

    /// The layout of control messages. Windows is little-endian throughout.
    pub open spec fn layout_spec(self) -> Layout {
        Layout {
            header_len: (self.word + 8) as usize,
            unit: self.word,
            len_at: 0,
            len_width: self.word,
            big_endian: false,
            min_len: 0,
            end_slack: 0,
            stops_at_short: false,
            null_when_empty: false,
        }
    }

    /// The layout of control messages.
    pub fn layout(&self) -> (l: Layout)
        requires
            self.wf(),
        ensures
            l == self.layout_spec(),
            l.wf(),
    {
        Layout {
            header_len: self.word + 8,
            unit: self.word,
            len_at: 0,
            len_width: self.word,
            big_endian: false,
            min_len: 0,
            end_slack: 0,
            stops_at_short: false,
            null_when_empty: false,
        }
    }

    /// `WSA_CMSG_ALIGN`, which control message headers are aligned to.
    pub fn cmsghdr_align(&self, len: usize) -> (r: usize)
        requires
            self.wf(),
            len + self.word <= usize::MAX,
        ensures
            r == round_up(len as nat, self.word as nat),
    {
        align_mask(len, self.word)
    }

    /// `WSA_CMSGDATA_ALIGN`, which control message payloads are aligned to.
    pub fn cmsgdata_align(&self, len: usize) -> (r: usize)
        requires
            self.wf(),
            len + self.word <= usize::MAX,
        ensures
            r == round_up(len as nat, self.word as nat),
    {
        align_mask(len, self.word)
    }

    pub proof fn lemma_layout(self)
        requires
            self.wf(),
        ensures
            self.layout_spec().wf(),
            self.layout_spec().data_offset() == self.header_len(),
    {
        lemma_round_up(self.header_len(), self.word as nat);
        if self.word == 4 {
            assert(self.header_len() % 4 == 0);
        } else {
            assert(self.header_len() % 8 == 0);
        }
    }

    /// `WSA_CMSG_LEN`, the value of the length for a payload of `payload_len` bytes.
    pub fn cmsg_len(&self, payload_len: usize) -> (r: usize)
        requires
            self.wf(),
            payload_len + 16 <= usize::MAX,
        ensures
            r == self.layout_spec().len_of(payload_len as nat),
            r == self.word + 8 + payload_len,
    {
        proof {
            self.lemma_layout();
        }
        self.cmsgdata_align(self.word + 8) + payload_len
    }

    /// `WSA_CMSG_SPACE`, the buffer space one control message with this payload takes up.
    pub fn cmsg_space(&self, payload_len: usize) -> (r: usize)
        requires
            self.wf(),
            payload_len + 32 <= usize::MAX,
        ensures
            r == self.layout_spec().space_of(payload_len as nat),
    {
        proof {
            self.lemma_layout();
            lemma_round_up(payload_len as nat, self.word as nat);
            let inner = round_up(payload_len as nat, self.word as nat);
            lemma_round_up_add(self.header_len(), inner, self.word as nat);
            lemma_round_up(self.header_len(), self.word as nat);
            lemma_round_up(inner, self.word as nat);
        }
        self.cmsgdata_align(self.word + 8 + self.cmsghdr_align(payload_len))
    }

    /// The alignment a control message payload is guaranteed to have.
    pub fn payload_align(&self) -> (r: usize)
        ensures
            r == self.word,
    {
        self.word
    }

    /// Space for one control message carrying any of our payloads.
    pub fn message_len(&self) -> (r: usize)
        requires
            self.wf(),
        ensures
            r == self.layout_spec().space_of(PAYLOAD_LEN as nat),
            r <= 64,
    {
        proof {
            self.lemma_layout();
            self.layout_spec().lemma_space_of(PAYLOAD_LEN as nat);
        }
        self.cmsg_space(PAYLOAD_LEN)
    }

    /// Space for the control messages one `WSASendMsg` can carry.
    ///
    /// The ECN codepoint, the source address and the segment size, one each: the IPv4 and IPv6
    /// forms are mutually exclusive.
    pub fn send_len(&self) -> (r: usize)
        requires
            self.wf(),
        ensures
            r == 3 * self.layout_spec().space_of(PAYLOAD_LEN as nat),
    {
        3 * self.message_len()
    }

    /// Space for the control messages `WSARecvMsg` can return for one datagram.
    ///
    /// The ECN codepoint, the packet info and the URO coalesced size, one each.
    pub fn recv_len(&self) -> (r: usize)
        requires
            self.wf(),
        ensures
            r == 3 * self.layout_spec().space_of(PAYLOAD_LEN as nat),
    {
        3 * self.message_len()
    }

    /// The message that sets the ECN codepoint of an IPv4 datagram.
    pub open spec fn ecn_v4(self, ecn: i32) -> Message {
        Message {
            level: self.ipproto_ip,
            ty: self.ip_ecn,
            payload: word_bytes(false, ecn as u32 as nat, 4),
        }
    }

    /// The message that sets the ECN codepoint of an IPv6 datagram.
    pub open spec fn ecn_v6(self, ecn: i32) -> Message {
        Message {
            level: self.ipproto_ipv6,
            ty: self.ipv6_ecn,
            payload: word_bytes(false, ecn as u32 as nat, 4),
        }
    }

    /// The message that sets the segment size.
    pub open spec fn segment_size(self, segment_size: u32) -> Message {
        Message {
            level: self.ipproto_udp,
            ty: self.udp_send_msg_size,
            payload: word_bytes(false, segment_size as nat, 4),
        }
    }

    /// The message that sets the source address of an IPv4 datagram.
    pub open spec fn pktinfo_v4(self, pktinfo: InPktinfo) -> Message {
        Message { level: self.ipproto_ip, ty: self.ip_pktinfo, payload: pktinfo.bytes() }
    }

    /// The message that sets the source address of an IPv6 datagram.
    pub open spec fn pktinfo_v6(self, pktinfo: In6Pktinfo) -> Message {
        Message { level: self.ipproto_ipv6, ty: self.ipv6_pktinfo, payload: pktinfo.bytes() }
    }
}

impl InPktinfo {
    /// How the packet info is stored.
    pub open spec fn bytes(self) -> Seq<u8> {
        self.addr@ + word_bytes(false, self.ifindex as nat, 4)
    }

    /// How the packet info is stored.
    pub fn to_vec(&self) -> (r: Vec<u8>)
        ensures
            r@ == self.bytes(),
    {
        let mut r: Vec<u8> = Vec::new();
        r.extend_from_slice(&self.addr);
        let mut index: Vec<u8> = word_to_vec(self.ifindex as u64, 4, false);
        r.append(&mut index);
        assert(r@ =~= self.bytes());
        r
    }
}

impl In6Pktinfo {
    /// How the packet info is stored.
    pub open spec fn bytes(self) -> Seq<u8> {
        self.addr@ + word_bytes(false, self.ifindex as nat, 4)
    }

    /// How the packet info is stored.
    pub fn to_vec(&self) -> (r: Vec<u8>)
        ensures
            r@ == self.bytes(),
    {
        let mut r: Vec<u8> = Vec::new();
        r.extend_from_slice(&self.addr);
        let mut index: Vec<u8> = word_to_vec(self.ifindex as u64, 4, false);
        r.append(&mut index);
        assert(r@ =~= self.bytes());
        r
    }
}

/// The control messages we send.
impl<'a> Encoder<'a, Windows> {
    /// Sets the ECN codepoint of an IPv4 datagram.
    pub fn push_ecn_v4(&mut self, ecn: i32)
        requires
            old(self).wf(),
            old(self).can_push(4),
        ensures
            appended(*final(self), *old(self), old(self).platform.ecn_v4(ecn)),
            *final(final(self).hdr) == *final(old(self).hdr),
    {
        proof {
            lemma_word_bytes_len(false, ecn as u32 as nat, 4);
        }
        let payload: Vec<u8> = word_to_vec(ecn as u32 as u64, 4, false);
        self.push(self.platform.ipproto_ip, self.platform.ip_ecn, payload.as_slice());
    }

    /// Sets the ECN codepoint of an IPv6 datagram.
    pub fn push_ecn_v6(&mut self, ecn: i32)
        requires
            old(self).wf(),
            old(self).can_push(4),
        ensures
            appended(*final(self), *old(self), old(self).platform.ecn_v6(ecn)),
            *final(final(self).hdr) == *final(old(self).hdr),
    {
        proof {
            lemma_word_bytes_len(false, ecn as u32 as nat, 4);
        }
        let payload: Vec<u8> = word_to_vec(ecn as u32 as u64, 4, false);
        self.push(self.platform.ipproto_ipv6, self.platform.ipv6_ecn, payload.as_slice());
    }

    /// Sets the segment size the stack splits an oversized datagram into.
    pub fn push_segment_size(&mut self, segment_size: u32)
        requires
            old(self).wf(),
            old(self).can_push(4),
        ensures
            appended(*final(self), *old(self), old(self).platform.segment_size(segment_size)),
            *final(final(self).hdr) == *final(old(self).hdr),
    {
        proof {
            lemma_word_bytes_len(false, segment_size as nat, 4);
        }
        let payload: Vec<u8> = word_to_vec(segment_size as u64, 4, false);
        self.push(self.platform.ipproto_udp, self.platform.udp_send_msg_size, payload.as_slice());
    }

    /// Sets the source address of an IPv4 datagram.
    pub fn push_pktinfo_v4(&mut self, pktinfo: InPktinfo)
        requires
            old(self).wf(),
            old(self).can_push(8),
        ensures
            appended(*final(self), *old(self), old(self).platform.pktinfo_v4(pktinfo)),
            *final(final(self).hdr) == *final(old(self).hdr),
    {
        proof {
            lemma_word_bytes_len(false, pktinfo.ifindex as nat, 4);
        }
        let payload: Vec<u8> = pktinfo.to_vec();
        self.push(self.platform.ipproto_ip, self.platform.ip_pktinfo, payload.as_slice());
    }

    /// Sets the source address of an IPv6 datagram.
    pub fn push_pktinfo_v6(&mut self, pktinfo: In6Pktinfo)
        requires
            old(self).wf(),
            old(self).can_push(PAYLOAD_LEN as nat),
        ensures
            appended(*final(self), *old(self), old(self).platform.pktinfo_v6(pktinfo)),
            *final(final(self).hdr) == *final(old(self).hdr),
    {
        proof {
            lemma_word_bytes_len(false, pktinfo.ifindex as nat, 4);
        }
        let payload: Vec<u8> = pktinfo.to_vec();
        self.push(self.platform.ipproto_ipv6, self.platform.ipv6_pktinfo, payload.as_slice());
    }
}

/// Every message that can be sent has a payload, and none is larger than buffers allow for.
pub proof fn law_windows_payloads_fit_a_message(
    target: Windows,
    ecn: i32,
    size: u32,
    v4: InPktinfo,
    v6: In6Pktinfo,
)
    ensures
        0 < target.ecn_v4(ecn).payload.len() == 4 <= PAYLOAD_LEN,
        0 < target.ecn_v6(ecn).payload.len() == 4 <= PAYLOAD_LEN,
        0 < target.segment_size(size).payload.len() == 4 <= PAYLOAD_LEN,
        0 < target.pktinfo_v4(v4).payload.len() == 8 <= PAYLOAD_LEN,
        0 < target.pktinfo_v6(v6).payload.len() == 20 <= PAYLOAD_LEN,
{
    lemma_word_bytes_len(false, ecn as u32 as nat, 4);
    lemma_word_bytes_len(false, size as nat, 4);
    lemma_word_bytes_len(false, v4.ifindex as nat, 4);
    lemma_word_bytes_len(false, v6.ifindex as nat, 4);
}

/// The ECN codepoint of an IPv4 datagram is in the buffer as an IPv4 option.
pub proof fn law_windows_ecn_v4_is_for_ipv4<'a>(e: &mut Encoder<'a, Windows>, ecn: i32)
    requires
        old(e).wf(),
        call_ensures(Encoder::<'a, Windows>::push_ecn_v4, (e, ecn), ()),
    ensures
        is_header_of(
            old(e).layout,
            final(e).header().control@,
            old(e).len as int,
            old(e).platform.ipproto_ip,
            old(e).platform.ip_ecn,
            4,
        ),
        ({
            let start = old(e).len + old(e).layout.data_offset();
            let buf = final(e).header().control@;
            word_value(false, buf.subrange(start, start + 4)) == ecn as u32
        }),
{
    let m = old(e).platform.ecn_v4(ecn);
    lemma_byte_spans();
    lemma_word_bytes_len(false, ecn as u32 as nat, 4);
    law_word_reads_back(false, ecn as u32 as nat, 4);
    law_appended_message_is_its_bytes(*final(e), *old(e), m, 0);
}

/// The ECN codepoint of an IPv6 datagram is in the buffer as an IPv6 option.
pub proof fn law_windows_ecn_v6_is_for_ipv6<'a>(e: &mut Encoder<'a, Windows>, ecn: i32)
    requires
        old(e).wf(),
        call_ensures(Encoder::<'a, Windows>::push_ecn_v6, (e, ecn), ()),
    ensures
        is_header_of(
            old(e).layout,
            final(e).header().control@,
            old(e).len as int,
            old(e).platform.ipproto_ipv6,
            old(e).platform.ipv6_ecn,
            4,
        ),
        ({
            let start = old(e).len + old(e).layout.data_offset();
            let buf = final(e).header().control@;
            word_value(false, buf.subrange(start, start + 4)) == ecn as u32
        }),
{
    let m = old(e).platform.ecn_v6(ecn);
    lemma_byte_spans();
    lemma_word_bytes_len(false, ecn as u32 as nat, 4);
    law_word_reads_back(false, ecn as u32 as nat, 4);
    law_appended_message_is_its_bytes(*final(e), *old(e), m, 0);
}

/// The segment size is in the buffer as a UDP option.
pub proof fn law_windows_segment_size_is_for_udp<'a>(
    e: &mut Encoder<'a, Windows>,
    segment_size: u32,
)
    requires
        old(e).wf(),
        call_ensures(Encoder::<'a, Windows>::push_segment_size, (e, segment_size), ()),
    ensures
        is_header_of(
            old(e).layout,
            final(e).header().control@,
            old(e).len as int,
            old(e).platform.ipproto_udp,
            old(e).platform.udp_send_msg_size,
            4,
        ),
        ({
            let start = old(e).len + old(e).layout.data_offset();
            let buf = final(e).header().control@;
            word_value(false, buf.subrange(start, start + 4)) == segment_size
        }),
{
    let m = old(e).platform.segment_size(segment_size);
    lemma_byte_spans();
    lemma_word_bytes_len(false, segment_size as nat, 4);
    law_word_reads_back(false, segment_size as nat, 4);
    law_appended_message_is_its_bytes(*final(e), *old(e), m, 0);
}

/// The source address of an IPv4 datagram is in the buffer as an IPv4 option, followed by the
/// interface.
pub proof fn law_windows_pktinfo_v4_is_for_ipv4<'a>(
    e: &mut Encoder<'a, Windows>,
    pktinfo: InPktinfo,
)
    requires
        old(e).wf(),
        call_ensures(Encoder::<'a, Windows>::push_pktinfo_v4, (e, pktinfo), ()),
    ensures
        is_header_of(
            old(e).layout,
            final(e).header().control@,
            old(e).len as int,
            old(e).platform.ipproto_ip,
            old(e).platform.ip_pktinfo,
            8,
        ),
        ({
            let start = old(e).len + old(e).layout.data_offset();
            let buf = final(e).header().control@;
            &&& buf.subrange(start, start + 4) == pktinfo.addr@
            &&& word_value(false, buf.subrange(start + 4, start + 8)) == pktinfo.ifindex
        }),
{
    let m = old(e).platform.pktinfo_v4(pktinfo);
    lemma_byte_spans();
    lemma_word_bytes_len(false, pktinfo.ifindex as nat, 4);
    law_word_reads_back(false, pktinfo.ifindex as nat, 4);
    law_appended_message_is_its_bytes(*final(e), *old(e), m, 0);
    let start = old(e).len + old(e).layout.data_offset();
    let buf = final(e).header().control@;
    let payload = buf.subrange(start, start + 8);
    assert(payload == m.payload);
    assert(buf.subrange(start, start + 4) =~= payload.take(4));
    assert(payload.take(4) =~= pktinfo.addr@);
    assert(buf.subrange(start + 4, start + 8) =~= payload.skip(4));
    assert(payload.skip(4) =~= word_bytes(false, pktinfo.ifindex as nat, 4));
}

/// The source address of an IPv6 datagram is in the buffer as an IPv6 option, followed by the
/// interface.
pub proof fn law_windows_pktinfo_v6_is_for_ipv6<'a>(
    e: &mut Encoder<'a, Windows>,
    pktinfo: In6Pktinfo,
)
    requires
        old(e).wf(),
        call_ensures(Encoder::<'a, Windows>::push_pktinfo_v6, (e, pktinfo), ()),
    ensures
        is_header_of(
            old(e).layout,
            final(e).header().control@,
            old(e).len as int,
            old(e).platform.ipproto_ipv6,
            old(e).platform.ipv6_pktinfo,
            20,
        ),
        ({
            let start = old(e).len + old(e).layout.data_offset();
            let buf = final(e).header().control@;
            &&& buf.subrange(start, start + 16) == pktinfo.addr@
            &&& word_value(false, buf.subrange(start + 16, start + 20)) == pktinfo.ifindex
        }),
{
    let m = old(e).platform.pktinfo_v6(pktinfo);
    lemma_byte_spans();
    lemma_word_bytes_len(false, pktinfo.ifindex as nat, 4);
    law_word_reads_back(false, pktinfo.ifindex as nat, 4);
    law_appended_message_is_its_bytes(*final(e), *old(e), m, 0);
    let start = old(e).len + old(e).layout.data_offset();
    let buf = final(e).header().control@;
    let payload = buf.subrange(start, start + 20);
    assert(payload == m.payload);
    assert(buf.subrange(start, start + 16) =~= payload.take(16));
    assert(payload.take(16) =~= pktinfo.addr@);
    assert(buf.subrange(start + 16, start + 20) =~= payload.skip(16));
    assert(payload.skip(16) =~= word_bytes(false, pktinfo.ifindex as nat, 4));
}

/// On Windows a header is a length of one word, the level and the type, messages and payloads are
/// aligned to words, and any message whose next one fits is followed by it.
pub proof fn law_windows_header_is_a_word_and_two_integers(target: Windows, layout: Layout)
    requires
        target.wf(),
        call_ensures(Windows::layout, (&target,), layout),
    ensures
        layout.wf(),
        layout.header_len == target.word + 4 + 4,
        layout.len_at == 0,
        layout.len_width == target.word,
        layout.unit == target.word,
        layout.data_offset() == layout.header_len,
        !layout.big_endian,
        layout.min_len == 0,
        layout.end_slack == 0,
        !layout.stops_at_short,
        !layout.null_when_empty,
{
    target.lemma_layout();
}

/// The sizes that Windows computes are those of its layout, and buffers have space for three
/// messages of the largest payload.
pub proof fn law_windows_sizes_are_those_of_the_layout(
    target: Windows,
    n: usize,
    len: usize,
    space: usize,
    send_len: usize,
    recv_len: usize,
    align: usize,
)
    requires
        target.wf(),
        call_ensures(Windows::cmsg_len, (&target, n), len),
        call_ensures(Windows::cmsg_space, (&target, n), space),
        call_ensures(Windows::send_len, (&target,), send_len),
        call_ensures(Windows::recv_len, (&target,), recv_len),
        call_ensures(Windows::payload_align, (&target,), align),
    ensures
        len == target.word + 8 + n,
        space as nat % target.word as nat == 0,
        len <= space < len + target.word,
        n == PAYLOAD_LEN ==> send_len == 3 * space && recv_len == 3 * space,
        align == target.word,
        PAYLOAD_LEN == 16 + 4,
{
    target.lemma_layout();
    target.layout_spec().lemma_space_of(n as nat);
}

} // verus!
