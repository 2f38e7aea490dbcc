use std::mem::{align_of, size_of};

use noq_datagram::cmsg::unix::{common_align, In6Pktinfo, InPktinfo, IpTos, Unix};
use noq_datagram::cmsg::{
    decode, warn_if_control_truncated, ControlBuf, ControlMessage, Encoder, Iter, Layout, MsgHdr,
};

/// The layout of control messages on Linux with glibc.
fn glibc_layout() -> Layout {
    Layout {
        header_len: size_of::<libc::cmsghdr>(),
        unit: size_of::<usize>(),
        len_at: 0,
        len_width: size_of::<usize>(),
        big_endian: cfg_big_endian(),
        min_len: size_of::<libc::cmsghdr>(),
        end_slack: 0,
        stops_at_short: false,
        null_when_empty: true,
    }
}

fn cfg_big_endian() -> bool {
    1u16.to_ne_bytes()[0] == 0
}

/// The size of the largest payload, padded like a union of all of them.
fn payload_size() -> usize {
    let largest = [
        size_of::<libc::cmsghdr>(),
        size_of::<i32>(),
        size_of::<libc::in6_pktinfo>(),
        size_of::<libc::in_pktinfo>(),
        size_of::<libc::timespec>(),
    ]
    .into_iter()
    .max()
    .unwrap();
    let align = [
        align_of::<libc::cmsghdr>(),
        align_of::<libc::in6_pktinfo>(),
        align_of::<libc::in_pktinfo>(),
        align_of::<libc::timespec>(),
    ]
    .into_iter()
    .max()
    .unwrap();
    largest.div_ceil(align) * align
}

fn linux() -> Unix {
    Unix {
        layout: glibc_layout(),
        payload_len: payload_size(),
        word: align_of::<usize>(),
        ipproto_ip: libc::IPPROTO_IP,
        ipproto_ipv6: libc::IPPROTO_IPV6,
        sol_udp: libc::SOL_UDP,
        ip_tos: libc::IP_TOS,
        ipv6_tclass: libc::IPV6_TCLASS,
        udp_segment: libc::UDP_SEGMENT,
        ip_pktinfo: libc::IP_PKTINFO,
        ip_recvdstaddr: 7,
        ipv6_pktinfo: libc::IPV6_PKTINFO,
        msg_ctrunc: libc::MSG_CTRUNC,
    }
}

/// The payload of every control message we can send in one `sendmsg`.
fn sent_payload_lens() -> Vec<usize> {
    vec![
        size_of::<i32>(), // IP_TOS or IPV6_TCLASS
        size_of::<u16>(), // UDP_SEGMENT
        // IP_PKTINFO, IP_RECVDSTADDR or IPV6_PKTINFO
        payload_size(),
    ]
}

/// The payload of every control message the kernel can attach to one datagram.
fn received_payload_lens() -> Vec<usize> {
    vec![
        size_of::<i32>(),            // IP_TOS or IPV6_TCLASS
        payload_size(),              // IP_PKTINFO or IPV6_PKTINFO
        size_of::<i32>(),            // UDP_GRO
        size_of::<libc::timespec>(), // SCM_TIMESTAMPNS
    ]
}

fn libc_cmsg_space(payload_lens: &[usize]) -> usize {
    payload_lens
        .iter()
        .map(|len| glibc_layout().cmsg_space(*len))
        .sum()
}

/// Every message of a header with its payload.
fn messages(hdr: &MsgHdr, layout: Layout) -> Vec<(i32, i32, Vec<u8>)> {
    let mut found = Vec::new();
    let mut iter = Iter::new(hdr, layout);
    while let Some(cmsg) = iter.next() {
        let n = cmsg.len as usize - layout.cmsg_len(0);
        found.push((cmsg.level, cmsg.ty, decode(hdr, &layout, &cmsg, n).to_vec()));
    }
    found
}

/// The buffers hold every control message they have to.
///
/// The lengths count messages and assume the largest payload; this adds up the real ones, so a
/// message we failed to count shows up here, not as a truncated datagram.
#[test]
fn control_len_covers_libc() {
    let send_len = linux().send_len();
    let sent = libc_cmsg_space(&sent_payload_lens());
    assert!(send_len >= sent, "SEND_LEN is {send_len}, need {sent}");

    let recv_len = linux().recv_len();
    let received = libc_cmsg_space(&received_payload_lens());
    assert!(
        recv_len >= received,
        "RECV_LEN is {recv_len}, need {received}"
    );
}

/// Every payload in a full buffer is aligned for the type read out of it.
#[test]
fn unix_payloads_are_aligned() {
    let target = linux();
    let payload_align = target.payload_align();
    let mut hdr = MsgHdr::new(ControlBuf::zeroed(target.recv_len()));

    // The largest payload we use, so the messages after the first sit where a real receive would
    // put them.
    let payload = vec![0u8; payload_size()];
    let mut encoder = Encoder::new(&mut hdr, target.layout, target);
    for _ in 0..received_payload_lens().len() {
        encoder.push(libc::SOL_SOCKET, 0, &payload);
    }
    encoder.finish();

    let mut count = 0;
    let mut iter = Iter::new(&hdr, target.layout);
    while let Some(cmsg) = iter.next() {
        assert_eq!(
            cmsg.cmsg_data(&target.layout) % payload_align,
            0,
            "payload {count} is not aligned to {payload_align}",
        );
        count += 1;
    }
    assert_eq!(count, received_payload_lens().len());
}

#[test]
fn common_align_is_the_largest_shared_power_of_two() {
    assert_eq!(common_align(16, 24), 8);
    assert_eq!(common_align(12, 16), 4);
    assert_eq!(common_align(8, 8), 8);
    assert_eq!(common_align(7, 64), 1);
    assert_eq!(common_align(0, 64), 64);
}

#[test]
fn payload_align_is_what_offsets_and_buffer_share() {
    assert_eq!(linux().payload_align(), 8);
    let mut target = linux();
    target.word = 4;
    assert_eq!(target.payload_align(), 4);
    let mut target = linux();
    target.layout.header_len = 12;
    target.layout.len_width = 4;
    target.layout.unit = 4;
    target.layout.min_len = 12;
    assert_eq!(target.payload_align(), 4);
}

#[test]
fn linux_sizes_are_those_of_the_macros() {
    let layout = glibc_layout();
    assert_eq!(layout.cmsg_len(0), 16);
    assert_eq!(layout.cmsg_len(5), 21);
    assert_eq!(layout.cmsg_space(0), 16);
    assert_eq!(layout.cmsg_space(1), 24);
    assert_eq!(layout.cmsg_space(8), 24);
    assert_eq!(layout.cmsg_space(9), 32);
    assert_eq!(linux().message_len(), 40);
    assert_eq!(linux().send_len(), 120);
    assert_eq!(linux().recv_len(), 160);
}

#[test]
fn sent_messages_are_found_again() {
    let target = linux();
    let mut hdr = MsgHdr::new(ControlBuf::zeroed(target.send_len()));
    let mut encoder = Encoder::new(&mut hdr, target.layout, target);
    encoder.push_ecn_v6(2);
    encoder.push_segment_size(1200);
    encoder.push_pktinfo_v6(In6Pktinfo { addr: [7; 16], ifindex: 3 });
    encoder.finish();
    assert_eq!(hdr.control_len, 24 + 24 + 40);
    let mut pktinfo = vec![7u8; 16];
    pktinfo.extend_from_slice(&3u32.to_ne_bytes());
    assert_eq!(
        messages(&hdr, target.layout),
        vec![
            (libc::IPPROTO_IPV6, libc::IPV6_TCLASS, 2i32.to_ne_bytes().to_vec()),
            (libc::SOL_UDP, libc::UDP_SEGMENT, 1200u16.to_ne_bytes().to_vec()),
            (libc::IPPROTO_IPV6, libc::IPV6_PKTINFO, pktinfo),
        ]
    );
}

#[test]
fn ipv4_messages_are_found_again() {
    let target = linux();
    let mut hdr = MsgHdr::new(ControlBuf::zeroed(target.recv_len()));
    let mut encoder = Encoder::new(&mut hdr, target.layout, target);
    encoder.push_ecn_v4(IpTos::Int(-1));
    encoder.push_ecn_v4(IpTos::Byte(3));
    encoder.push_pktinfo_v4(InPktinfo {
        ifindex: -2,
        spec_dst: [127, 0, 0, 1],
        addr: [10, 0, 0, 1],
    });
    encoder.push_src_addr_v4([1, 2, 3, 4]);
    encoder.finish();
    let mut pktinfo = (-2i32).to_ne_bytes().to_vec();
    pktinfo.extend_from_slice(&[127, 0, 0, 1, 10, 0, 0, 1]);
    assert_eq!(
        messages(&hdr, target.layout),
        vec![
            (libc::IPPROTO_IP, libc::IP_TOS, vec![0xff; 4]),
            (libc::IPPROTO_IP, libc::IP_TOS, vec![3]),
            (libc::IPPROTO_IP, libc::IP_PKTINFO, pktinfo),
            (libc::IPPROTO_IP, 7, vec![1, 2, 3, 4]),
        ]
    );
}

#[test]
fn a_header_is_laid_out_as_the_kernel_reads_it() {
    let target = linux();
    let mut hdr = MsgHdr::new(ControlBuf::zeroed(24));
    let mut encoder = Encoder::new(&mut hdr, target.layout, target);
    encoder.push(0x0102, 0x0304, &[9, 8]);
    encoder.finish();
    let mut expected = Vec::new();
    expected.extend_from_slice(&18usize.to_ne_bytes());
    expected.extend_from_slice(&0x0102i32.to_ne_bytes());
    expected.extend_from_slice(&0x0304i32.to_ne_bytes());
    expected.extend_from_slice(&[9, 8, 0, 0, 0, 0, 0, 0]);
    assert_eq!(hdr.control, expected);
    assert_eq!(hdr.control_len, 24);
    assert!(hdr.has_control);
}

#[test]
fn a_header_without_messages_has_no_buffer() {
    let target = linux();
    let mut hdr = MsgHdr::new(ControlBuf::zeroed(24));
    Encoder::new(&mut hdr, target.layout, target).finish();
    assert_eq!(hdr.control_len, 0);
    assert!(!hdr.has_control);
    assert!(messages(&hdr, target.layout).is_empty());

    let mut layout = glibc_layout();
    layout.null_when_empty = false;
    let mut hdr = MsgHdr::new(ControlBuf::zeroed(24));
    Encoder::new(&mut hdr, layout, target).finish();
    assert_eq!(hdr.control_len, 0);
    assert!(hdr.has_control);
}

#[test]
fn a_zeroed_message_ends_the_walk_where_the_layout_says_so() {
    // Without a smallest length, a zeroed message is followed by itself for ever.
    let mut layout = glibc_layout();
    layout.min_len = 0;
    let hdr = MsgHdr::new(ControlBuf::zeroed(64));
    let mut iter = Iter::new(&hdr, layout);
    for _ in 0..10 {
        assert!(iter.next().is_some());
    }
    layout.stops_at_short = true;
    assert!(Iter::new(&hdr, layout).next().is_none());
    // With one, it is the last.
    let mut iter = Iter::new(&hdr, glibc_layout());
    assert!(iter.next().is_some());
    assert!(iter.next().is_none());
    assert!(iter.next().is_none());
}

#[test]
fn a_buffer_shorter_than_a_header_has_no_message() {
    let hdr = MsgHdr::new(ControlBuf::zeroed(15));
    assert_eq!(hdr.cmsg_first_hdr(&glibc_layout()), None);
    let hdr = MsgHdr::new(ControlBuf::zeroed(16));
    assert_eq!(hdr.cmsg_first_hdr(&glibc_layout()), Some(0));
}

#[test]
fn slack_hides_an_empty_message_at_the_end() {
    let mut layout = glibc_layout();
    let target = linux();
    let mut hdr = MsgHdr::new(ControlBuf::zeroed(40));
    let mut encoder = Encoder::new(&mut hdr, layout, target);
    encoder.push(1, 2, &[5]);
    encoder.push(3, 4, &[]);
    encoder.finish();
    assert_eq!(messages(&hdr, layout).len(), 2);
    layout.end_slack = 1;
    assert_eq!(messages(&hdr, layout), vec![(1, 2, vec![5])]);
}

#[test]
fn truncation_is_warned_of_once() {
    let mut warned = false;
    let mut hdr = MsgHdr::new(ControlBuf::zeroed(0));
    assert!(!warn_if_control_truncated(&hdr, libc::MSG_CTRUNC, &mut warned));
    hdr.flags = libc::MSG_CTRUNC | libc::MSG_TRUNC;
    assert!(warn_if_control_truncated(&hdr, libc::MSG_CTRUNC, &mut warned));
    assert!(!warn_if_control_truncated(&hdr, libc::MSG_CTRUNC, &mut warned));
    assert!(warned);
}

#[test]
fn control_buffers_are_zeroed() {
    let buf = ControlBuf::zeroed(5);
    assert_eq!(buf.len(), 5);
    assert_eq!(buf.bytes, vec![0; 5]);
}

#[test]
fn the_payload_starts_after_the_padded_header() {
    let mut layout = glibc_layout();
    layout.header_len = 20;
    let cmsg = ControlMessage { at: 8, len: 24, level: 0, ty: 0 };
    assert_eq!(cmsg.cmsg_data(&layout), 32);
}

/// A header is left the same whether its encoder is finished or dropped.
#[test]
fn a_dropped_encoder_leaves_what_a_finished_one_leaves() {
    let target = linux();
    let header = |messages: u16, finish: bool| {
        let mut hdr = MsgHdr::new(ControlBuf::zeroed(target.send_len()));
        let mut encoder = Encoder::new(&mut hdr, target.layout, target);
        for size in 0..messages {
            encoder.push_segment_size(size);
        }
        if finish {
            encoder.finish();
        } else {
            drop(encoder);
        }
        (hdr.control, hdr.control_len, hdr.has_control, hdr.flags)
    };
    for messages in 0..=3 {
        let finished = header(messages, true);
        assert_eq!(finished.1, messages as usize * 24);
        assert_eq!(finished.2, messages > 0);
        assert_eq!(header(messages, false), finished);
    }
}

/// Without packet info the largest payload is small, and the sizes follow it.
#[test]
fn a_target_may_have_small_payloads_only() {
    let mut target = linux();
    target.payload_len = 16;
    assert_eq!(target.message_len(), 32);
    assert_eq!(target.send_len(), 96);
    assert_eq!(target.recv_len(), 128);
}

/// Some systems round to sixteen bytes.
#[test]
fn wide_units_are_rounded_to() {
    let mut layout = glibc_layout();
    layout.unit = 16;
    layout.header_len = 12;
    layout.len_width = 4;
    assert_eq!(layout.cmsg_len(0), 16);
    assert_eq!(layout.cmsg_space(1), 32);
    assert_eq!(layout.cmsg_space(17), 48);
}
