use bytes::Bytes;
use noq_datagram::bench::names::{CipherSuite, Congestion, Direction, RuntimeType, SendMode};
use noq_datagram::bench::options::{transport_config, BenchOpt, DatagramOpt, Opt};
use noq_datagram::bench::streams::{send_data_on_stream, StreamReader, CHUNK_LEN};

fn stream_options() -> Opt {
    Opt {
        clients: 1,
        streams: 1,
        max_streams: 7,
        download_size: 1 << 30,
        upload_size: 0,
        stats: false,
        read_unordered: false,
        cipher: CipherSuite::Aes256,
        initial_mtu: 1300,
        runtime_type: RuntimeType::Tokio,
    }
}

fn datagram_options() -> DatagramOpt {
    DatagramOpt {
        clients: 1,
        direction: Direction::Send,
        packet_size: 1200,
        total_bytes: 1 << 30,
        send_mode: SendMode::Drop,
        batch_size: 1,
        congestion: Congestion::NewReno,
        send_fairness: false,
        datagram_send_buffer: 1048576,
        datagram_recv_buffer: None,
        ack_frequency: None,
        initial_mtu: 1200,
        stats: false,
        runtime_type: RuntimeType::Tokio,
        cipher: CipherSuite::Chacha20,
    }
}

fn chunks(size: u64) -> Vec<Bytes> {
    let mut data = send_data_on_stream(size);
    let mut chunks = Vec::new();
    while let Some(chunk) = data.next_chunk() {
        chunks.push(chunk);
    }
    chunks
}

#[test]
fn a_stream_is_sent_in_full_chunks_and_the_rest() {
    let lens = |size| chunks(size).iter().map(|chunk| chunk.len()).collect::<Vec<usize>>();
    assert_eq!(CHUNK_LEN, 1024 * 1024);
    assert_eq!(lens(0), Vec::<usize>::new());
    assert_eq!(lens(1), vec![1]);
    assert_eq!(lens(CHUNK_LEN as u64), vec![CHUNK_LEN]);
    assert_eq!(lens(2 * CHUNK_LEN as u64 + 5), vec![CHUNK_LEN, CHUNK_LEN, 5]);
    assert!(chunks(CHUNK_LEN as u64 + 3).iter().flatten().all(|byte| *byte == 0xAB));
}

#[test]
fn what_is_sent_is_what_is_read() {
    let size = 3 * CHUNK_LEN as u64 + 17;
    let sent = chunks(size);
    let mut ordered = StreamReader::new();
    ordered.add_chunks(&sent, sent.len());
    assert_eq!(ordered.read as u64, size);
    let mut unordered = StreamReader::new();
    for chunk in sent.iter().rev() {
        unordered.add_chunk(chunk);
    }
    assert_eq!(unordered.read as u64, size);
}

#[test]
fn only_filled_buffers_are_counted() {
    let bufs = vec![Bytes::from_static(b"abc"), Bytes::from_static(b"de"), Bytes::new()];
    let mut reader = StreamReader::new();
    reader.add_chunks(&bufs, 1);
    assert_eq!(reader.read, 3);
    reader.add_chunks(&bufs, 2);
    assert_eq!(reader.read, 8);
    reader.add_chunks(&bufs, 0);
    assert_eq!(reader.read, 8);
}

#[test]
fn stream_benchmarks_set_streams_and_acks() {
    let opt = stream_options();
    let t = transport_config(&opt);
    assert_eq!(t.max_concurrent_uni_streams, Some(7));
    assert_eq!(t.initial_mtu, 1300);
    assert_eq!(t.ack_eliciting_threshold, Some(10));
    assert_eq!(t.congestion, None);
    assert_eq!(t.datagram_send_buffer_size, None);
    assert_eq!(t.datagram_receive_buffer_size, None);
    assert_eq!(t.send_fairness, None);
    assert_eq!(t.enable_segmentation_offload, None);
    assert_eq!(opt.cipher(), CipherSuite::Aes256);
    assert_eq!(opt.transport_config().max_concurrent_uni_streams, Some(7));
}

#[test]
fn datagram_benchmarks_set_buffers_and_congestion() {
    let opt = datagram_options();
    let t = opt.transport_config();
    assert_eq!(t.initial_mtu, 1200);
    assert_eq!(t.max_concurrent_uni_streams, None);
    assert_eq!(t.send_fairness, Some(false));
    assert_eq!(t.datagram_send_buffer_size, Some(1048576));
    assert_eq!(t.enable_segmentation_offload, Some(true));
    assert_eq!(t.congestion, Some(Congestion::NewReno));
    // Left alone unless asked for.
    assert_eq!(t.datagram_receive_buffer_size, None);
    assert_eq!(t.ack_eliciting_threshold, None);
    assert_eq!(opt.cipher(), CipherSuite::Chacha20);
    let opt = DatagramOpt {
        datagram_recv_buffer: Some(99),
        ack_frequency: Some(4),
        ..datagram_options()
    };
    let t = opt.transport_config();
    assert_eq!(t.datagram_receive_buffer_size, Some(99));
    assert_eq!(t.ack_eliciting_threshold, Some(4));
}
