use bytes::Bytes;
use noq_datagram::datagrams::{
    Connection, DatagramState, PeerParams, SendDatagramError, TransportConfig, TransportError,
};
use noq_datagram::frame::{Datagram, FrameStats, PacketBuilder};

fn connection(budget: usize) -> Connection {
    Connection {
        config: TransportConfig {
            datagram_receive_buffer_size: Some(1000),
            datagram_send_buffer_size: budget,
        },
        peer_params: PeerParams { max_datagram_frame_size: Some(65535) },
        current_mtu: 1200,
        one_rtt_overhead: 37,
        datagrams: DatagramState::default(),
    }
}

fn bytes(fill: u8, n: usize) -> Bytes {
    Bytes::from(vec![fill; n])
}

fn datagram(fill: u8, n: usize) -> Datagram {
    Datagram { data: bytes(fill, n) }
}

fn queued(conn: &Connection) -> Vec<(u8, usize)> {
    conn.datagrams.outgoing.iter().map(|d| (d.data[0], d.data.len())).collect()
}

#[test]
fn max_size_is_what_the_path_leaves() {
    let mut conn = connection(100);
    assert_eq!(conn.datagrams().max_size(), Some(1200 - 37 - 9));
}

#[test]
fn max_size_is_what_the_peer_takes() {
    let mut conn = connection(100);
    conn.peer_params.max_datagram_frame_size = Some(500);
    assert_eq!(conn.datagrams().max_size(), Some(491));
    conn.peer_params.max_datagram_frame_size = Some(5);
    assert_eq!(conn.datagrams().max_size(), Some(0));
}

#[test]
fn max_size_is_none_without_datagrams() {
    let mut conn = connection(100);
    conn.peer_params.max_datagram_frame_size = None;
    assert_eq!(conn.datagrams().max_size(), None);
    let mut conn = connection(100);
    conn.config.datagram_receive_buffer_size = None;
    assert_eq!(conn.datagrams().max_size(), None);
}

#[test]
fn send_reports_why_it_cannot() {
    let mut conn = connection(100);
    conn.config.datagram_receive_buffer_size = None;
    assert_eq!(conn.datagrams().send(bytes(1, 10), true), Err(SendDatagramError::Disabled));
    let mut conn = connection(100);
    conn.peer_params.max_datagram_frame_size = None;
    assert_eq!(
        conn.datagrams().send(bytes(1, 10), true),
        Err(SendDatagramError::UnsupportedByPeer)
    );
    let mut conn = connection(100_000);
    assert_eq!(conn.datagrams().send(bytes(1, 1155), true), Err(SendDatagramError::TooLarge));
    assert_eq!(conn.datagrams().send(bytes(1, 1154), true), Ok(()));
    let mut conn = connection(100);
    assert_eq!(conn.datagrams().send(bytes(1, 60), false), Ok(()));
    assert!(!conn.datagrams.send_blocked);
    assert_eq!(
        conn.datagrams().send(bytes(2, 41), false),
        Err(SendDatagramError::Blocked(bytes(2, 41)))
    );
    assert!(conn.datagrams.send_blocked);
    assert_eq!(queued(&conn), vec![(1, 60)]);
    assert_eq!(conn.datagrams().send(bytes(2, 40), false), Ok(()));
}

#[test]
fn errors_have_words() {
    assert_eq!(
        SendDatagramError::UnsupportedByPeer.message(),
        "datagrams not supported by peer"
    );
    assert_eq!(SendDatagramError::Disabled.message(), "datagram support disabled");
    assert_eq!(SendDatagramError::TooLarge.message(), "datagram too large");
    assert_eq!(SendDatagramError::Blocked(bytes(1, 1)).message(), "datagram send blocked");
}

#[test]
fn send_drops_the_oldest_beyond_the_budget() {
    let mut conn = connection(100);
    for fill in 1..=2 {
        assert_eq!(conn.datagrams().send(bytes(fill, 50), true), Ok(()));
    }
    // The budget can be used up, but a datagram for which it leaves no space takes the place of
    // the oldest.
    assert_eq!(queued(&conn), vec![(1, 50), (2, 50)]);
    assert_eq!(conn.datagrams.outgoing_total, 100);
    assert_eq!(conn.datagrams().send(bytes(3, 50), true), Ok(()));
    assert_eq!(queued(&conn), vec![(2, 50), (3, 50)]);
    assert_eq!(conn.datagrams.outgoing_total, 100);
    assert_eq!(conn.datagrams().send(bytes(4, 10), true), Ok(()));
    assert_eq!(queued(&conn), vec![(3, 50), (4, 10)]);
    assert_eq!(conn.datagrams.outgoing_total, 60);
}

#[test]
fn no_space_can_be_made_for_a_datagram_beyond_the_budget() {
    let mut conn = connection(3);
    assert_eq!(conn.datagrams().send(bytes(1, 2), true), Ok(()));
    assert_eq!(conn.datagrams().send(bytes(2, 5), true), Ok(()));
    assert_eq!(queued(&conn), vec![(1, 2), (2, 5)]);
    assert_eq!(conn.datagrams.outgoing_total, 7);
    // What exceeds the budget is discarded by the next send, whatever its size.
    assert_eq!(conn.datagrams().send(bytes(3, 4), true), Ok(()));
    assert_eq!(queued(&conn), vec![(3, 4)]);
    assert_eq!(conn.datagrams().send(bytes(4, 1), true), Ok(()));
    assert_eq!(queued(&conn), vec![(4, 1)]);
}

#[test]
fn a_batch_of_one_is_like_a_single_send() {
    let mut one = connection(100);
    let mut many = connection(100);
    for (fill, n) in [(1, 60), (2, 60), (3, 40), (4, 1)] {
        assert_eq!(one.datagrams().send(bytes(fill, n), true), Ok(()));
        assert_eq!(many.datagrams().send_many(vec![bytes(fill, n)]), Ok(1));
        assert_eq!(queued(&one), queued(&many));
    }
}

#[test]
fn max_size_exceeds_a_kilobyte_on_every_path() {
    let mut conn = connection(100);
    conn.one_rtt_overhead = 166;
    assert_eq!(conn.datagrams().max_size(), Some(1025));
}

#[test]
fn sending_within_the_space_drops_nothing() {
    let mut conn = connection(100);
    assert_eq!(conn.datagrams().send_buffer_space(), 100);
    assert_eq!(conn.datagrams().send(bytes(1, 70), true), Ok(()));
    assert_eq!(conn.datagrams().send_buffer_space(), 30);
    assert_eq!(conn.datagrams().send(bytes(2, 30), true), Ok(()));
    assert_eq!(queued(&conn), vec![(1, 70), (2, 30)]);
    assert_eq!(conn.datagrams().send_buffer_space(), 0);
    assert_eq!(conn.datagrams().send(bytes(3, 30), true), Ok(()));
    assert_eq!(queued(&conn), vec![(2, 30), (3, 30)]);
    assert_eq!(conn.datagrams().send_buffer_space(), 40);
}

#[test]
fn send_many_skips_what_is_too_large() {
    let mut conn = connection(100_000);
    let batch = vec![bytes(1, 10), bytes(2, 2000), bytes(3, 20)];
    assert_eq!(conn.datagrams().send_many(batch), Ok(2));
    assert_eq!(queued(&conn), vec![(1, 10), (3, 20)]);
    assert_eq!(conn.datagrams.outgoing_total, 30);
}

#[test]
fn send_many_reports_why_it_cannot() {
    let mut conn = connection(100);
    assert_eq!(
        conn.datagrams().send_many(vec![bytes(1, 2000), bytes(2, 3000)]),
        Err(SendDatagramError::TooLarge)
    );
    assert_eq!(conn.datagrams().send_many(Vec::new()), Ok(0));
    conn.peer_params.max_datagram_frame_size = None;
    assert_eq!(
        conn.datagrams().send_many(vec![bytes(1, 1)]),
        Err(SendDatagramError::UnsupportedByPeer)
    );
    conn.config.datagram_receive_buffer_size = None;
    assert_eq!(conn.datagrams().send_many(vec![bytes(1, 1)]), Err(SendDatagramError::Disabled));
}

#[test]
fn send_many_drops_once_for_the_whole_batch() {
    let mut conn = connection(100);
    let batch = (1..=5).map(|fill| bytes(fill, 40)).collect();
    assert_eq!(conn.datagrams().send_many(batch), Ok(5));
    assert_eq!(queued(&conn), vec![(4, 40), (5, 40)]);
    assert_eq!(conn.datagrams.outgoing_total, 80);
}

#[test]
fn a_batch_within_the_space_is_like_single_sends() {
    let mut one = connection(200);
    let mut many = connection(200);
    let batch: Vec<Bytes> = (1..=4).map(|fill| bytes(fill, 50)).collect();
    for data in &batch {
        assert_eq!(one.datagrams().send(data.clone(), true), Ok(()));
    }
    assert_eq!(many.datagrams().send_many(batch), Ok(4));
    assert_eq!(queued(&one), queued(&many));
}

#[test]
fn received_datagrams_come_out_in_order() {
    let mut conn = connection(100);
    let window = Some(100);
    assert_eq!(conn.datagrams.received(datagram(1, 10), &window), Ok(true));
    assert_eq!(conn.datagrams.received(datagram(2, 20), &window), Ok(false));
    assert_eq!(conn.datagrams.recv_buffered, 30);
    assert_eq!(conn.datagrams().recv(), Some(bytes(1, 10)));
    assert_eq!(conn.datagrams().recv(), Some(bytes(2, 20)));
    assert_eq!(conn.datagrams().recv(), None);
    assert_eq!(conn.datagrams.recv_buffered, 0);
    // A datagram without bytes leaves the buffer empty.
    assert_eq!(conn.datagrams.received(datagram(1, 0), &window), Ok(true));
    assert_eq!(conn.datagrams.received(datagram(1, 1), &window), Ok(true));
}

#[test]
fn the_window_decides_what_is_kept() {
    let mut state = DatagramState::default();
    let window = Some(100);
    for fill in 1..=3 {
        assert!(state.received(datagram(fill, 40), &window).is_ok());
    }
    assert_eq!(state.recv_buffered, 80);
    assert_eq!(state.recv(), Some(bytes(2, 40)));
    assert!(state.received(datagram(4, 100), &window).is_ok());
    assert_eq!(state.recv(), Some(bytes(4, 100)));
    assert_eq!(state.recv(), None);
}

#[test]
fn a_peer_that_breaks_the_rules_is_told_so() {
    let mut state = DatagramState::default();
    assert_eq!(
        state.received(datagram(1, 1), &None),
        Err(TransportError::ProtocolViolation { reason: "unexpected DATAGRAM frame" })
    );
    assert_eq!(
        state.received(datagram(1, 11), &Some(10)),
        Err(TransportError::ProtocolViolation { reason: "oversized datagram" })
    );
    assert_eq!(state.received(datagram(1, 10), &Some(10)), Ok(true));
}

#[test]
fn recv_many_fills_the_capacity() {
    let mut conn = connection(100);
    for fill in 1..=5 {
        assert!(conn.datagrams.received(datagram(fill, 10), &Some(100)).is_ok());
    }
    let mut out = Vec::with_capacity(3);
    let capacity = out.capacity();
    let n = conn.datagrams().recv_many(&mut out);
    assert_eq!(n, capacity.min(5));
    assert_eq!(out.len(), n);
    for (i, data) in out.iter().enumerate() {
        assert_eq!(*data, bytes(i as u8 + 1, 10));
    }
    // What is left comes out next, behind what was there.
    let mut out = Vec::with_capacity(10);
    out.push(bytes(9, 1));
    assert_eq!(conn.datagrams().recv_many(&mut out), 5 - n);
    assert_eq!(out[0], bytes(9, 1));
    assert_eq!(out.len(), 6 - n);
    assert_eq!(conn.datagrams.recv_buffered, 0);
    let mut none = Vec::new();
    assert!(conn.datagrams.received(datagram(1, 10), &Some(100)).is_ok());
    assert_eq!(conn.datagrams().recv_many(&mut none), 0);
}

#[test]
fn the_state_drains_all_at_once() {
    let mut state = DatagramState::default();
    for fill in 1..=3 {
        assert!(state.received(datagram(fill, 10), &Some(100)).is_ok());
    }
    let mut out = vec![bytes(9, 1)];
    assert_eq!(state.recv_many(&mut out), 3);
    assert_eq!(out, vec![bytes(9, 1), bytes(1, 10), bytes(2, 10), bytes(3, 10)]);
    assert_eq!(state.recv_many(&mut out), 0);
    assert_eq!(state.recv(), None);
}

#[test]
fn receiving_many_is_like_receiving_one_by_one() {
    let mut one = DatagramState::default();
    let mut many = DatagramState::default();
    for fill in 1..=4 {
        assert!(one.received(datagram(fill, 10), &Some(100)).is_ok());
        assert!(many.received(datagram(fill, 10), &Some(100)).is_ok());
    }
    let mut out = Vec::new();
    assert_eq!(many.recv_up_to(&mut out, 3), 3);
    for data in out {
        assert_eq!(one.recv(), Some(data));
    }
    assert_eq!(one.recv(), many.recv());
}

#[test]
fn oversized_datagrams_are_dropped() {
    let mut conn = connection(1000);
    for (fill, n) in [(1, 50), (2, 100), (3, 101), (4, 10)] {
        assert_eq!(conn.datagrams().send(bytes(fill, n), true), Ok(()));
    }
    assert!(conn.datagrams.drop_oversized(100));
    assert_eq!(queued(&conn), vec![(1, 50), (2, 100), (4, 10)]);
    assert_eq!(conn.datagrams.outgoing_total, 160);
    assert!(!conn.datagrams.drop_oversized(100));
    assert_eq!(queued(&conn), vec![(1, 50), (2, 100), (4, 10)]);
}

#[test]
fn the_oldest_datagram_is_written_if_it_fits() {
    let mut conn = connection(1000);
    let mut packet = PacketBuilder { buf: vec![0x40], limit: 14 };
    let mut stats = FrameStats { datagram: 0 };
    assert!(!conn.datagrams.write(&mut packet, &mut stats));
    assert_eq!(conn.datagrams().send(bytes(7, 11), true), Ok(()));
    assert_eq!(conn.datagrams().send(bytes(8, 1), true), Ok(()));
    // Thirteen bytes are left, and the frame takes as many.
    assert!(conn.datagrams.write(&mut packet, &mut stats));
    let mut expected = vec![0x40, 0x31, 11];
    expected.extend_from_slice(&[7; 11]);
    assert_eq!(packet.buf, expected);
    assert_eq!(stats.datagram, 1);
    assert_eq!(conn.datagrams.outgoing_total, 1);
    assert!(!conn.datagrams.write(&mut packet, &mut stats));
    assert_eq!(queued(&conn), vec![(8, 1)]);
    assert_eq!(packet.buf, expected);
    assert_eq!(stats.datagram, 1);
}

#[test]
fn a_datagram_of_the_maximum_size_fits_a_packet() {
    let mut conn = connection(100_000);
    let max = conn.datagrams().max_size().unwrap();
    assert_eq!(conn.datagrams().send(bytes(1, max), true), Ok(()));
    let limit = conn.current_mtu as usize - conn.one_rtt_overhead;
    let mut packet = PacketBuilder { buf: Vec::new(), limit };
    let mut stats = FrameStats { datagram: 0 };
    assert!(conn.datagrams.write(&mut packet, &mut stats));
    assert_eq!(packet.buf.len(), 1 + 2 + max);
}

#[test]
fn a_batch_beyond_the_space_is_like_single_sends() {
    let mut one = connection(100);
    let mut many = connection(100);
    let batch: Vec<Bytes> = (1..=5).map(|fill| bytes(fill, 40)).collect();
    for data in &batch {
        assert_eq!(one.datagrams().send(data.clone(), true), Ok(()));
    }
    assert_eq!(many.datagrams().send_many(batch), Ok(5));
    assert_eq!(queued(&one), vec![(4, 40), (5, 40)]);
    assert_eq!(queued(&many), queued(&one));
}
