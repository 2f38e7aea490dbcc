use bytes::Bytes;
use noq_datagram::bench::flood::{
    done_datagram, flood_batch, flood_payload, part, receive_slots, receives_many, run_both,
    run_side, send_done_until_closed, send_plan, DoneAction, DoneEvent, FloodReceiver, Part, Role,
    SendAction, SendPlan, SendPlanError, Sender, Step, DONE_CODE, FINISH_BYTE, START_BYTE,
};
use noq_datagram::bench::names::{CipherSuite, Congestion, Direction, RuntimeType, SendMode};
use noq_datagram::bench::options::DatagramOpt;
use noq_datagram::bench::stats::Elapsed;

fn options() -> DatagramOpt {
    DatagramOpt {
        clients: 1,
        direction: Direction::Send,
        packet_size: 1200,
        total_bytes: 3000,
        send_mode: SendMode::Drop,
        batch_size: 1,
        congestion: Congestion::Cubic,
        send_fairness: true,
        datagram_send_buffer: 1 << 20,
        datagram_recv_buffer: None,
        ack_frequency: None,
        initial_mtu: 1200,
        stats: false,
        runtime_type: RuntimeType::Tokio,
        cipher: CipherSuite::Aes128,
    }
}

#[test]
fn the_direction_says_who_sends() {
    assert_eq!(part(Role::Client, Direction::Send), Part::Sender);
    assert_eq!(part(Role::Server, Direction::Send), Part::Receiver);
    assert_eq!(part(Role::Client, Direction::Recv), Part::Receiver);
    assert_eq!(part(Role::Server, Direction::Recv), Part::Sender);
    assert_eq!(part(Role::Client, Direction::Both), Part::Both);
    assert_eq!(part(Role::Server, Direction::Both), Part::Both);
    assert_eq!(Part::Sender.label(), "sender");
    assert_eq!(Part::Receiver.label(), "receiver");
    assert_eq!(Part::Both.label(), "both");
}

#[test]
fn the_receiver_closes() {
    assert_eq!(
        run_side(Role::Client, Direction::Send, false),
        vec![Step::Flood, Step::SendDone]
    );
    assert_eq!(
        run_side(Role::Server, Direction::Send, true),
        vec![Step::Receive, Step::Close, Step::PrintStats]
    );
}

#[test]
fn two_floods_end_with_a_handshake() {
    let client = run_both(Role::Client);
    assert_eq!(
        client,
        vec![
            Step::OpenStream,
            Step::WriteStart,
            Step::SpawnReceive,
            Step::Flood,
            Step::SpawnDone,
            Step::JoinReceive,
            Step::WriteFinish,
            Step::ReadFinish,
            Step::AbortDone,
            Step::Close,
        ]
    );
    let server = run_both(Role::Server);
    assert_eq!(&server[..2], &[Step::AcceptStream, Step::ReadStart]);
    assert_eq!(&server[2..], &client[2..]);
    assert_eq!(run_side(Role::Server, Direction::Both, false), server);
    let tolerated: Vec<Step> = client.into_iter().filter(|step| !step.must_succeed()).collect();
    assert_eq!(tolerated, vec![Step::WriteFinish, Step::ReadFinish]);
}

#[test]
fn markers_are_what_the_peer_expects() {
    assert_eq!(DONE_CODE.to_be_bytes(), *b"DONE");
    assert_eq!(START_BYTE, b'S');
    assert_eq!(FINISH_BYTE, b'F');
    assert_eq!(done_datagram(), Bytes::from_static(&[0xFF]));
}

#[test]
fn a_plan_is_clamped_to_the_connection() {
    let plan = send_plan(&options(), Some(1000)).unwrap();
    assert_eq!(
        plan,
        SendPlan { pkt_size: 1000, batch_size: 1, mode: SendMode::Drop, total_bytes: 3000 }
    );
    assert_eq!(send_plan(&options(), Some(5000)).unwrap().pkt_size, 1200);
    let opt = DatagramOpt { batch_size: 0, ..options() };
    assert_eq!(send_plan(&opt, Some(1000)).unwrap().batch_size, 1);
    let opt = DatagramOpt { batch_size: 32, ..options() };
    assert_eq!(send_plan(&opt, Some(1000)).unwrap().batch_size, 32);
}

#[test]
fn a_plan_that_cannot_work_is_refused() {
    assert_eq!(send_plan(&options(), None), Err(SendPlanError::Unsupported));
    assert_eq!(send_plan(&options(), Some(0)), Err(SendPlanError::EmptyPacket));
    let opt = DatagramOpt { packet_size: 0, ..options() };
    assert_eq!(send_plan(&opt, Some(1000)), Err(SendPlanError::EmptyPacket));
    let opt = DatagramOpt { batch_size: 2, send_mode: SendMode::Wait, ..options() };
    assert_eq!(send_plan(&opt, Some(1000)), Err(SendPlanError::BatchWaits));
    let opt = DatagramOpt { send_mode: SendMode::Wait, ..options() };
    assert!(send_plan(&opt, Some(1000)).is_ok());
    assert_eq!(
        SendPlanError::Unsupported.message(),
        "datagrams unsupported or disabled"
    );
    assert_eq!(SendPlanError::EmptyPacket.message(), "packet_size resolves to 0");
    assert_eq!(
        SendPlanError::BatchWaits.message(),
        "--batch-size > 1 requires --send-mode drop"
    );
}

#[test]
fn flood_packets_are_filled() {
    let payload = flood_payload(3);
    assert_eq!(payload, Bytes::from_static(&[0xAB, 0xAB, 0xAB]));
    assert_eq!(flood_batch(&payload, 2), vec![payload.clone(), payload]);
}

#[test]
fn a_sender_waits_for_space_and_sends_until_it_is_done() {
    let mut sender = Sender::new(send_plan(&options(), Some(1000)).unwrap());
    for packets in 1..=3 {
        assert_eq!(sender.action(), SendAction::AwaitSpace { bytes: 1000 });
        sender.space_found(999);
        assert_eq!(sender.action(), SendAction::AwaitSpace { bytes: 1000 });
        sender.space_found(1000);
        assert_eq!(sender.action(), SendAction::Send);
        sender.sent(1);
        assert_eq!(sender.sent_packets, packets);
    }
    assert_eq!(sender.action(), SendAction::Finished);
    let c = sender.counters(Elapsed { secs: 1, nanos: 2 });
    assert_eq!((c.sent_bytes, c.sent_packets), (3000, 3));
    assert_eq!(c.send_elapsed, Elapsed { secs: 1, nanos: 2 });
    assert_eq!((c.recv_bytes, c.recv_packets), (0, 0));
    assert!(c.recv_elapsed.is_zero());
}

#[test]
fn a_batch_may_send_more_than_was_asked() {
    let opt = DatagramOpt { batch_size: 2, ..options() };
    let mut sender = Sender::new(send_plan(&opt, Some(1000)).unwrap());
    let mut calls = 0;
    while sender.action() != SendAction::Finished {
        assert_eq!(sender.action(), SendAction::AwaitSpace { bytes: 2000 });
        sender.space_found(2000);
        assert_eq!(sender.action(), SendAction::SendMany);
        sender.sent(2);
        calls += 1;
    }
    assert_eq!(calls, 2);
    assert_eq!(sender.sent_bytes, 4000);
}

#[test]
fn a_waiting_sender_does_not_look_at_the_space() {
    let opt = DatagramOpt { send_mode: SendMode::Wait, total_bytes: 1, ..options() };
    let mut sender = Sender::new(send_plan(&opt, Some(1000)).unwrap());
    assert_eq!(sender.action(), SendAction::SendWaiting);
    sender.sent(1);
    assert_eq!(sender.action(), SendAction::Finished);
    let opt = DatagramOpt { total_bytes: 0, ..options() };
    let sender = Sender::new(send_plan(&opt, Some(1000)).unwrap());
    assert_eq!(sender.action(), SendAction::Finished);
    let opt = DatagramOpt { batch_size: usize::MAX, ..opt };
    let sender = Sender::new(send_plan(&opt, Some(1000)).unwrap());
    assert_eq!(sender.action(), SendAction::Finished);
}

#[test]
fn the_end_marker_is_repeated_until_the_close() {
    assert_eq!(send_done_until_closed(DoneEvent::Started), DoneAction::Wait);
    assert_eq!(
        send_done_until_closed(DoneEvent::IntervalElapsed),
        DoneAction::SendMarker
    );
    assert_eq!(send_done_until_closed(DoneEvent::MarkerSent), DoneAction::Wait);
    assert_eq!(send_done_until_closed(DoneEvent::MarkerRefused), DoneAction::Stop);
    assert_eq!(send_done_until_closed(DoneEvent::Closed), DoneAction::Stop);
}

#[test]
fn a_receiver_counts_up_to_the_marker() {
    let mut receiver = FloodReceiver::new();
    let batch = vec![flood_payload(100), flood_payload(50), done_datagram(), flood_payload(7)];
    assert_eq!(receiver.recv_flood(&batch, 1), 1);
    assert!(!receiver.done);
    assert_eq!((receiver.recv_bytes, receiver.recv_packets), (100, 1));
    assert_eq!(receiver.recv_flood(&batch, 4), 2);
    assert!(receiver.done);
    assert_eq!((receiver.recv_bytes, receiver.recv_packets), (250, 3));
    let c = receiver.counters(Elapsed { secs: 3, nanos: 4 });
    assert_eq!((c.recv_bytes, c.recv_packets), (250, 3));
    assert_eq!(c.recv_elapsed, Elapsed { secs: 3, nanos: 4 });
    assert_eq!((c.sent_bytes, c.sent_packets), (0, 0));
}

#[test]
fn only_the_marker_ends_a_flood() {
    let mut receiver = FloodReceiver::new();
    let batch = vec![
        Bytes::new(),
        Bytes::from_static(&[0xFF, 0xFF]),
        Bytes::from_static(&[0xFE]),
        flood_payload(1),
    ];
    assert_eq!(receiver.recv_flood(&batch, 4), 4);
    assert_eq!((receiver.recv_bytes, receiver.recv_packets), (4, 4));
    assert!(!receiver.done);
}

#[test]
fn splitting_a_flood_changes_nothing() {
    let flood: Vec<Bytes> = (1..=6).map(flood_payload).chain([done_datagram()]).collect();
    let mut whole = FloodReceiver::new();
    whole.recv_flood(&flood, flood.len());
    let mut split = FloodReceiver::new();
    for batch in flood.chunks(3) {
        split.recv_flood(&batch.to_vec(), batch.len());
    }
    assert_eq!(whole.recv_bytes, split.recv_bytes);
    assert_eq!(whole.recv_packets, split.recv_packets);
    assert_eq!(whole.recv_bytes, 21);
    assert!(whole.done && split.done);
}

#[test]
fn a_single_slot_takes_the_single_call() {
    assert_eq!(receive_slots(&options()), 1);
    assert_eq!(receive_slots(&DatagramOpt { batch_size: 0, ..options() }), 1);
    assert_eq!(receive_slots(&DatagramOpt { batch_size: 9, ..options() }), 9);
    assert!(!receives_many(1));
    assert!(receives_many(2));
}
