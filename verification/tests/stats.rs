use noq_datagram::bench::counters::{
    aggregate, both_halves, build_report, prints_aggregate, DatagramCounters,
};
use noq_datagram::bench::names::{CipherSuite, Congestion, Direction, RuntimeType, SendMode};
use noq_datagram::bench::options::DatagramOpt;
use noq_datagram::bench::stats::{Elapsed, Stats, StreamStats, TransferResult};

fn millis(n: u64) -> Elapsed {
    Elapsed { secs: n / 1000, nanos: (n % 1000) as u32 * 1_000_000 }
}

fn counters(base: u64) -> DatagramCounters {
    DatagramCounters {
        sent_bytes: base,
        sent_packets: base + 1,
        send_elapsed: millis(base + 2),
        recv_bytes: base + 3,
        recv_packets: base + 4,
        recv_elapsed: millis(base + 5),
    }
}

fn fields(c: &DatagramCounters) -> (u64, u64, Elapsed, u64, u64, Elapsed) {
    (
        c.sent_bytes,
        c.sent_packets,
        c.send_elapsed,
        c.recv_bytes,
        c.recv_packets,
        c.recv_elapsed,
    )
}

fn options() -> DatagramOpt {
    DatagramOpt {
        clients: 2,
        direction: Direction::Both,
        packet_size: 1200,
        total_bytes: 1 << 30,
        send_mode: SendMode::Wait,
        batch_size: 1,
        congestion: Congestion::Bbr3,
        send_fairness: true,
        datagram_send_buffer: 1 << 20,
        datagram_recv_buffer: None,
        ack_frequency: None,
        initial_mtu: 1200,
        stats: false,
        runtime_type: RuntimeType::Tokio,
        cipher: CipherSuite::Aes128,
    }
}

#[test]
fn merging_adds_counts_and_keeps_the_longer_time() {
    let mut c = counters(100);
    c.merge(&counters(10));
    assert_eq!(
        fields(&c),
        (110, 112, millis(102), 116, 118, millis(105))
    );
    let mut d = counters(10);
    d.merge(&counters(100));
    assert_eq!(fields(&c), fields(&d));
    let mut e = DatagramCounters::default();
    e.merge(&counters(7));
    assert_eq!(fields(&e), fields(&counters(7)));
}

#[test]
fn merging_in_any_grouping_is_the_same() {
    let mut left = counters(1);
    left.merge(&counters(200));
    left.merge(&counters(30));
    let mut inner = counters(200);
    inner.merge(&counters(30));
    let mut right = counters(1);
    right.merge(&inner);
    assert_eq!(fields(&left), fields(&right));
}

#[test]
fn aggregates_are_sums_over_all_clients() {
    let sum = aggregate(&vec![counters(10), counters(300), counters(20)]);
    assert_eq!(
        fields(&sum),
        (330, 333, millis(302), 339, 342, millis(305))
    );
    assert_eq!(fields(&aggregate(&Vec::new())), fields(&DatagramCounters::default()));
    assert!(!prints_aggregate(1));
    assert!(prints_aggregate(2));
}

#[test]
fn both_halves_make_one_report() {
    let sent = DatagramCounters {
        sent_bytes: 5,
        sent_packets: 6,
        send_elapsed: millis(7),
        ..DatagramCounters::default()
    };
    let received = DatagramCounters {
        recv_bytes: 8,
        recv_packets: 9,
        recv_elapsed: millis(10),
        ..DatagramCounters::default()
    };
    assert_eq!(
        fields(&both_halves(&sent, &received)),
        (5, 6, millis(7), 8, 9, millis(10))
    );
}

#[test]
fn spans_compare_by_seconds_then_nanoseconds() {
    let short = Elapsed { secs: 1, nanos: 999_999_999 };
    let long = Elapsed { secs: 2, nanos: 0 };
    assert_eq!(short.max(long), long);
    assert_eq!(long.max(short), long);
    assert_eq!(short.max(Elapsed { secs: 1, nanos: 5 }), short);
    assert!(Elapsed::zero().is_zero());
    assert!(!Elapsed { secs: 0, nanos: 1 }.is_zero());
    assert_eq!(short.as_millis(), 1999);
    assert_eq!(Elapsed { secs: u64::MAX, nanos: 0 }.as_millis(), u64::MAX - 999);
}

#[test]
fn reports_say_what_was_run() {
    let report = build_report(options(), counters(1));
    assert_eq!(report.direction, "both");
    assert_eq!(report.send_mode, "wait");
    assert_eq!(report.congestion, "bbr3");
    assert_eq!(report.packet_size, 1200);
    assert_eq!(fields(&report.counters), fields(&counters(1)));
}

#[test]
fn reports_show_what_there_is() {
    let both = build_report(options(), counters(100)).lines();
    let sent = both.sent.unwrap();
    assert_eq!((sent.bytes, sent.packets, sent.elapsed), (100, 101, millis(102)));
    assert!(sent.timed);
    let received = both.received.unwrap();
    assert_eq!((received.bytes, received.packets, received.elapsed), (103, 104, millis(105)));
    let loss = both.loss.unwrap();
    assert_eq!((loss.sent, loss.received), (101, 104));

    let sender = DatagramCounters {
        recv_bytes: 0,
        recv_packets: 0,
        send_elapsed: Elapsed::zero(),
        ..counters(100)
    };
    let lines = build_report(options(), sender).lines();
    assert!(!lines.sent.unwrap().timed);
    assert!(lines.received.is_none());
    assert!(lines.loss.is_none());

    let receiver = DatagramCounters { sent_packets: 0, ..counters(100) };
    let lines = build_report(options(), receiver).lines();
    assert!(lines.sent.is_none());
    assert!(lines.received.is_some());
    assert!(lines.loss.is_none());
}

#[test]
fn finished_streams_add_up() {
    let mut stats = Stats::default();
    for n in [10, 20, 30, 40] {
        stats.stream_finished(TransferResult::new(millis(n), n * 100, n * 3));
    }
    assert_eq!(stats.total_size, 10_000);
    assert_eq!(stats.streams, 4);
    assert!(stats.total_duration.is_zero());
    let rows: Vec<_> = stats
        .metrics()
        .iter()
        .map(|row| (row.label, row.throughput, row.duration))
        .collect();
    assert_eq!(
        rows,
        vec![
            ("AVG ", 75, 25),
            ("P0  ", 30, 10),
            ("P10 ", 30, 10),
            ("P50 ", 60, 20),
            ("P90 ", 120, 40),
            ("P100", 120, 40),
        ]
    );
}

/// Values are read back as a histogram of three digits gives them.
#[test]
fn metrics_are_those_of_the_histogram() {
    let mut stats = Stats::default();
    let mut durations = hdrhistogram::Histogram::<u64>::new(3).unwrap();
    let mut throughputs = hdrhistogram::Histogram::<u64>::new(3).unwrap();
    for n in 1..500u64 {
        let duration = n * n * 977 % 10_007;
        let throughput = n * 123_456_789;
        durations.record(duration).unwrap();
        throughputs.record(throughput).unwrap();
        stats.stream_finished(TransferResult::new(millis(duration), n, throughput));
    }
    let rows = stats.metrics();
    assert_eq!(rows[0].throughput, throughputs.mean() as u64);
    assert_eq!(rows[0].duration, durations.mean() as u64);
    for (row, quantile) in rows[1..].iter().zip([0.00, 0.10, 0.50, 0.90, 1.00]) {
        assert_eq!(row.throughput, throughputs.value_at_quantile(quantile));
        assert_eq!(row.duration, durations.value_at_quantile(quantile));
    }
}

#[test]
fn the_largest_values_can_be_recorded() {
    let mut stats = Stats { stream_stats: StreamStats::default(), ..Stats::default() };
    stats.stream_finished(TransferResult::new(millis(0), 0, u64::MAX));
    let rows = stats.metrics();
    assert!(rows[5].throughput >= u64::MAX - 1);
    assert_eq!(rows[5].duration, 0);
}
