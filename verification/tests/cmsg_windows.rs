use noq_datagram::cmsg::windows::{In6Pktinfo, InPktinfo, Windows, PAYLOAD_LEN};
use noq_datagram::cmsg::{decode, ControlBuf, Encoder, Iter, MsgHdr};
use windows_sys::Win32::Networking::WinSock;

fn windows(word: usize) -> Windows {
    Windows {
        word,
        ipproto_ip: WinSock::IPPROTO_IP,
        ipproto_ipv6: WinSock::IPPROTO_IPV6,
        ipproto_udp: WinSock::IPPROTO_UDP,
        ip_ecn: WinSock::IP_ECN,
        ipv6_ecn: WinSock::IPV6_ECN,
        udp_send_msg_size: WinSock::UDP_SEND_MSG_SIZE,
        ip_pktinfo: WinSock::IP_PKTINFO,
        ipv6_pktinfo: WinSock::IPV6_PKTINFO,
        msg_ctrunc: WinSock::MSG_CTRUNC as i32,
    }
}

/// Every payload in a full buffer is aligned for the type read out of it.
///
/// Encoding the whole send set also shows that the send buffer covers it.
#[test]
fn windows_payloads_are_aligned() {
    for word in [4, 8] {
        let target = windows(word);
        let payload_align = target.payload_align();
        let mut msg = MsgHdr::new(ControlBuf::zeroed(target.send_len()));

        let mut encoder = Encoder::new(&mut msg, target.layout(), target);
        encoder.push_pktinfo_v6(In6Pktinfo { addr: [0; 16], ifindex: 0 });
        encoder.push_ecn_v6(0);
        encoder.push_segment_size(1200);
        encoder.finish();

        let mut count = 0;
        let mut iter = Iter::new(&msg, target.layout());
        while let Some(cmsg) = iter.next() {
            assert_eq!(
                cmsg.cmsg_data(&target.layout()) % payload_align,
                0,
                "payload {count} is not aligned to {payload_align}",
            );
            count += 1;
        }
        assert_eq!(count, 3);
    }
}

#[test]
fn the_largest_payload_is_the_ipv6_packet_info() {
    assert_eq!(PAYLOAD_LEN, std::mem::size_of::<WinSock::IN6_PKTINFO>());
    assert!(PAYLOAD_LEN >= std::mem::size_of::<WinSock::IN_PKTINFO>());
}

#[test]
fn windows_sizes_are_those_of_the_macros() {
    let target = windows(8);
    assert_eq!(target.cmsghdr_align(13), 16);
    assert_eq!(target.cmsgdata_align(16), 16);
    assert_eq!(target.cmsg_len(20), 36);
    assert_eq!(target.cmsg_space(20), 40);
    assert_eq!(target.message_len(), 40);
    assert_eq!(target.send_len(), 120);
    assert_eq!(target.recv_len(), 120);
    assert_eq!(target.payload_align(), 8);
    let target = windows(4);
    assert_eq!(target.cmsg_len(20), 32);
    assert_eq!(target.cmsg_space(20), 32);
    assert_eq!(target.send_len(), 96);
    assert_eq!(target.payload_align(), 4);
}

#[test]
fn windows_messages_are_found_again() {
    let target = windows(8);
    let layout = target.layout();
    let mut msg = MsgHdr::new(ControlBuf::zeroed(target.send_len()));
    let mut encoder = Encoder::new(&mut msg, layout, target);
    encoder.push_ecn_v4(1);
    encoder.push_segment_size(0x01020304);
    encoder.push_pktinfo_v4(InPktinfo { addr: [10, 0, 0, 1], ifindex: 5 });
    encoder.finish();
    assert_eq!(msg.control_len, 24 + 24 + 24);
    // The header of the first message, little-endian throughout.
    assert_eq!(&msg.control[..8], &[20, 0, 0, 0, 0, 0, 0, 0]);

    let mut found = Vec::new();
    let mut iter = Iter::new(&msg, layout);
    while let Some(cmsg) = iter.next() {
        let n = cmsg.len as usize - target.cmsg_len(0);
        found.push((cmsg.level, cmsg.ty, decode(&msg, &layout, &cmsg, n).to_vec()));
    }
    assert_eq!(
        found,
        vec![
            (WinSock::IPPROTO_IP, WinSock::IP_ECN, vec![1, 0, 0, 0]),
            (WinSock::IPPROTO_UDP, WinSock::UDP_SEND_MSG_SIZE, vec![4, 3, 2, 1]),
            (WinSock::IPPROTO_IP, WinSock::IP_PKTINFO, vec![10, 0, 0, 1, 5, 0, 0, 0]),
        ]
    );
}

#[test]
fn a_windows_header_without_messages_keeps_its_buffer() {
    let target = windows(8);
    let mut msg = MsgHdr::new(ControlBuf::zeroed(24));
    Encoder::new(&mut msg, target.layout(), target).finish();
    assert_eq!(msg.control_len, 0);
    assert!(msg.has_control);
}
