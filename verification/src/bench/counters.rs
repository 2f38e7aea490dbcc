//! What a datagram flood sent and received.

use vstd::prelude::*;

use super::names::{Congestion, Direction, SendMode};
use super::options::DatagramOpt;
use super::stats::Elapsed;

verus! {

/// Per-direction raw counters for the datagram benchmark.
///
/// `sent_*` are filled by the sender; `recv_*` by the receiver. A sender that drops the oldest
/// queued datagrams may have fewer datagrams arrive than it sent: the difference is the loss.
#[derive(Debug, Clone, Copy)]
pub struct DatagramCounters {
    pub sent_bytes: u64,
    pub sent_packets: u64,
    pub send_elapsed: Elapsed,
    pub recv_bytes: u64,
    pub recv_packets: u64,
    pub recv_elapsed: Elapsed,
}

/// Counters as plain numbers, with times in nanoseconds.
pub struct Totals {
    pub sent_bytes: nat,
    pub sent_packets: nat,
    pub send_elapsed: nat,
    pub recv_bytes: nat,
    pub recv_packets: nat,
    pub recv_elapsed: nat,
}

/// Nothing sent and nothing received.
pub open spec fn no_totals() -> Totals {
    Totals {
        sent_bytes: 0,
        sent_packets: 0,
        send_elapsed: 0,
        recv_bytes: 0,
        recv_packets: 0,
        recv_elapsed: 0,
    }
}

/// What two floods come to together. They may have run at the same time, so the longer one counts:
/// the throughput of the whole is not inflated by the overlap.
pub open spec fn merged(a: Totals, b: Totals) -> Totals {
    Totals {
        sent_bytes: a.sent_bytes + b.sent_bytes,
        sent_packets: a.sent_packets + b.sent_packets,
        send_elapsed: super::stats::max_nat(a.send_elapsed, b.send_elapsed),
        recv_bytes: a.recv_bytes + b.recv_bytes,
        recv_packets: a.recv_packets + b.recv_packets,
        recv_elapsed: super::stats::max_nat(a.recv_elapsed, b.recv_elapsed),
    }
}

/// What a series of floods comes to together.
pub open spec fn merged_all(s: Seq<DatagramCounters>) -> Totals
    decreases s.len(),
{
    if s.len() == 0 {
        no_totals()
    } else {
        merged(merged_all(s.drop_last()), s.last()@)
    }
}

impl Totals {
    /// Whether the counts are of 64 bits.
    pub open spec fn fits(self) -> bool {
        &&& self.sent_bytes <= u64::MAX
        &&& self.sent_packets <= u64::MAX
        &&& self.recv_bytes <= u64::MAX
        &&& self.recv_packets <= u64::MAX
    }
}

impl View for DatagramCounters {
    type V = Totals;

    open spec fn view(&self) -> Totals {
        Totals {
            sent_bytes: self.sent_bytes as nat,
            sent_packets: self.sent_packets as nat,
            send_elapsed: self.send_elapsed.total_nanos(),
            recv_bytes: self.recv_bytes as nat,
            recv_packets: self.recv_packets as nat,
            recv_elapsed: self.recv_elapsed.total_nanos(),
        }
    }
}

impl DatagramCounters {
    pub open spec fn wf(self) -> bool {
        self.send_elapsed.wf() && self.recv_elapsed.wf()
    }

    /// Merge another set of counters (e.g. across multiple client connections).
    pub fn merge(&mut self, other: &Self)
        requires
            old(self).wf(),
            other.wf(),
            merged(old(self)@, other@).fits(),
        ensures
            final(self).wf(),
            final(self)@ == merged(old(self)@, other@),
    {
        self.sent_bytes += other.sent_bytes;
        self.sent_packets += other.sent_packets;
        self.recv_bytes += other.recv_bytes;
        self.recv_packets += other.recv_packets;
        // Use the max elapsed so aggregate throughput isn't inflated by overlapping runs.
        self.send_elapsed = self.send_elapsed.max(other.send_elapsed);
        self.recv_elapsed = self.recv_elapsed.max(other.recv_elapsed);
    }
}

impl Default for DatagramCounters {
    /// Nothing sent and nothing received.
    fn default() -> (c: Self)
        ensures
            c.wf(),
            c@ == no_totals(),
    {
        DatagramCounters {
            sent_bytes: 0,
            sent_packets: 0,
            send_elapsed: Elapsed::zero(),
            recv_bytes: 0,
            recv_packets: 0,
            recv_elapsed: Elapsed::zero(),
        }
    }
}

proof fn lemma_merged_all_fits(s: Seq<DatagramCounters>, i: int)
    requires
        0 <= i <= s.len(),
        merged_all(s).fits(),
    ensures
        merged_all(s.take(i)).fits(),
    decreases s.len() - i,
{
    if i < s.len() {
        lemma_merged_all_fits(s, i + 1);
        assert(s.take(i + 1).drop_last() =~= s.take(i));
    } else {
        assert(s.take(i) =~= s);
    }
}

/// The counters of several floods together.
pub fn aggregate(counters: &Vec<DatagramCounters>) -> (sum: DatagramCounters)
    requires
        forall|i: int| 0 <= i < counters@.len() ==> (#[trigger] counters@[i]).wf(),
        merged_all(counters@).fits(),
    ensures
        sum.wf(),
        sum@ == merged_all(counters@),
{
    let mut sum = DatagramCounters::default();
    let n: usize = counters.len();
    let mut i: usize = 0;
    while i < n
        invariant
            i <= n == counters@.len(),
            forall|i: int| 0 <= i < counters@.len() ==> (#[trigger] counters@[i]).wf(),
            merged_all(counters@).fits(),
            sum.wf(),
            sum@ == merged_all(counters@.take(i as int)),
        decreases n - i,
    {
        proof {
            lemma_merged_all_fits(counters@, i + 1);
            assert(counters@.take(i + 1).drop_last() =~= counters@.take(i as int));
            assert(counters@[i as int].wf());
        }
        sum.merge(&counters[i]);
        i += 1;
    }
    assert(counters@.take(n as int) =~= counters@);
    sum
}

/// The counters of the two halves of a side that sends and receives at once.
pub fn both_halves(sent: &DatagramCounters, received: &DatagramCounters) -> (c: DatagramCounters)
    requires
        sent.wf(),
        received.wf(),
        merged(sent@, received@).fits(),
    ensures
        c.wf(),
        c@ == merged(sent@, received@),
{
    let mut c = DatagramCounters::default();
    c.merge(sent);
    c.merge(received);
    c
}

/// A printable datagram benchmark report.
#[derive(Debug, Clone)]
pub struct DatagramReport {
    pub direction: String,
    pub packet_size: usize,
    pub send_mode: String,
    pub congestion: String,
    pub counters: DatagramCounters,
}

/// The report of a run with these options and counters.
pub fn build_report(opt: DatagramOpt, counters: DatagramCounters) -> (r: DatagramReport)
    ensures
        r.direction@ == opt.direction.name_spec(),
        r.packet_size == opt.packet_size,
        r.send_mode@ == opt.send_mode.name_spec(),
        r.congestion@ == opt.congestion.name_spec(),
        r.counters == counters,
{
    DatagramReport {
        direction: opt.direction.name().to_owned(),
        packet_size: opt.packet_size,
        send_mode: opt.send_mode.name().to_owned(),
        congestion: opt.congestion.name().to_owned(),
        counters,
    }
}

/// Whether a run prints a report on all of its clients together: there has to be more than one.
pub fn prints_aggregate(clients: usize) -> (r: bool)
    ensures
        r <==> clients > 1,
{
    clients > 1
}

/// One direction of a flood, as a report shows it.
#[derive(Debug, Clone, Copy)]
pub struct FlowLine {
    pub bytes: u64,
    pub packets: u64,
    pub elapsed: Elapsed,
    /// Whether there is a rate: it is zero where no time has passed
    pub timed: bool,
}

/// Which share of the datagrams was lost.
#[derive(Debug, Clone, Copy)]
pub struct Loss {
    pub sent: u64,
    pub received: u64,
}

/// What a report shows.
#[derive(Debug, Clone, Copy)]
pub struct ReportLines {
    pub sent: Option<FlowLine>,
    pub received: Option<FlowLine>,
    /// The loss, at the end of the line on what was received
    pub loss: Option<Loss>,
}

impl DatagramReport {
    /// What the report shows: the sent datagrams and the received ones, each if there are any, and
    /// with the latter the loss.
    ///
    /// Loss is only computable when the counters hold both sides of the same flood. A pure receiver
    /// has sent nothing and cannot know how much the peer sent.
    pub fn lines(&self) -> (l: ReportLines)
        ensures
            l.sent is Some <==> self.counters.sent_packets > 0,
            l.sent matches Some(line) ==> line == (FlowLine {
                bytes: self.counters.sent_bytes,
                packets: self.counters.sent_packets,
                elapsed: self.counters.send_elapsed,
                timed: self.counters.send_elapsed.total_nanos() > 0,
            }),
            l.received is Some <==> self.counters.recv_packets > 0,
            l.received matches Some(line) ==> line == (FlowLine {
                bytes: self.counters.recv_bytes,
                packets: self.counters.recv_packets,
                elapsed: self.counters.recv_elapsed,
                timed: self.counters.recv_elapsed.total_nanos() > 0,
            }),
            l.loss is Some <==> self.counters.sent_packets > 0 && self.counters.recv_packets > 0,
            l.loss matches Some(loss) ==> loss == (Loss {
                sent: self.counters.sent_packets,
                received: self.counters.recv_packets,
            }),
    {
        let c = &self.counters;
        let sent = if c.sent_packets > 0 {
            Some(
                FlowLine {
                    bytes: c.sent_bytes,
                    packets: c.sent_packets,
                    elapsed: c.send_elapsed,
                    timed: !c.send_elapsed.is_zero(),
                },
            )
        } else {
            None
        };
        let received = if c.recv_packets > 0 {
            Some(
                FlowLine {
                    bytes: c.recv_bytes,
                    packets: c.recv_packets,
                    elapsed: c.recv_elapsed,
                    timed: !c.recv_elapsed.is_zero(),
                },
            )
        } else {
            None
        };
        let loss = if c.sent_packets > 0 && c.recv_packets > 0 {
            Some(Loss { sent: c.sent_packets, received: c.recv_packets })
        } else {
            None
        };
        ReportLines { sent, received, loss }
    }
}

/// The order in which counters are merged does not matter, and merging empty ones changes nothing.
pub proof fn law_merge_order_is_irrelevant(a: Totals, b: Totals, c: Totals)
    ensures
        merged(a, b) == merged(b, a),
        merged(merged(a, b), c) == merged(a, merged(b, c)),
        merged(a, no_totals()) == a,
{
}

/// The time of aggregated counters, in each direction, is that of the longest run.
pub proof fn law_aggregate_time_is_the_longest(s: Seq<DatagramCounters>)
    ensures
        forall|i: int|
            0 <= i < s.len() ==> (#[trigger] s[i])@.send_elapsed <= merged_all(s).send_elapsed
                && s[i]@.recv_elapsed <= merged_all(s).recv_elapsed,
        s.len() > 0 ==> exists|i: int|
            0 <= i < s.len() && (#[trigger] s[i])@.send_elapsed == merged_all(s).send_elapsed,
        s.len() > 0 ==> exists|i: int|
            0 <= i < s.len() && (#[trigger] s[i])@.recv_elapsed == merged_all(s).recv_elapsed,
    decreases s.len(),
{
    if s.len() > 0 {
        let front = s.drop_last();
        law_aggregate_time_is_the_longest(front);
        assert forall|i: int| 0 <= i < s.len() implies (#[trigger] s[i])@.send_elapsed
            <= merged_all(s).send_elapsed && s[i]@.recv_elapsed <= merged_all(s).recv_elapsed by {
            if i < front.len() {
                assert(front[i] == s[i]);
            }
        }
        let last = s.len() - 1;
        assert(s[last] == s.last());
        if front.len() == 0 {
            assert(merged_all(front) == no_totals());
            assert(s[last]@.send_elapsed == merged_all(s).send_elapsed);
            assert(s[last]@.recv_elapsed == merged_all(s).recv_elapsed);
        } else {
            let i = choose|i: int|
                0 <= i < front.len() && (#[trigger] front[i])@.send_elapsed == merged_all(
                    front,
                ).send_elapsed;
            let j = choose|i: int|
                0 <= i < front.len() && (#[trigger] front[i])@.recv_elapsed == merged_all(
                    front,
                ).recv_elapsed;
            assert(s[i] == front[i]);
            assert(s[j] == front[j]);
        }
    }
}

/// Merging adds up what was counted and takes the longer time, in each direction on its own.
pub proof fn law_merge_adds_up(a: &mut DatagramCounters, b: &DatagramCounters)
    requires
        old(a).wf(),
        b.wf(),
        call_ensures(DatagramCounters::merge, (a, b), ()),
    ensures
        final(a).wf(),
        final(a).sent_bytes == old(a).sent_bytes + b.sent_bytes,
        final(a).sent_packets == old(a).sent_packets + b.sent_packets,
        final(a).recv_bytes == old(a).recv_bytes + b.recv_bytes,
        final(a).recv_packets == old(a).recv_packets + b.recv_packets,
        final(a).send_elapsed.total_nanos() >= old(a).send_elapsed.total_nanos(),
        final(a).send_elapsed.total_nanos() >= b.send_elapsed.total_nanos(),
        final(a).send_elapsed.total_nanos() == old(a).send_elapsed.total_nanos()
            || final(a).send_elapsed.total_nanos() == b.send_elapsed.total_nanos(),
        final(a).recv_elapsed.total_nanos() >= old(a).recv_elapsed.total_nanos(),
        final(a).recv_elapsed.total_nanos() >= b.recv_elapsed.total_nanos(),
        final(a).recv_elapsed.total_nanos() == old(a).recv_elapsed.total_nanos()
            || final(a).recv_elapsed.total_nanos() == b.recv_elapsed.total_nanos(),
{
    assert(final(a)@ == merged(old(a)@, b@));
    assert(final(a)@.sent_bytes == final(a).sent_bytes);
}

/// One more flood adds its counts to those of all before it; without any flood nothing is counted.
pub proof fn law_each_flood_is_aggregated_once(
    some: &Vec<DatagramCounters>,
    more: &Vec<DatagramCounters>,
    c: DatagramCounters,
    sum: DatagramCounters,
    total: DatagramCounters,
)
    requires
        more@ == some@.push(c),
        call_ensures(aggregate, (some,), sum),
        call_ensures(aggregate, (more,), total),
    ensures
        total.sent_bytes == sum.sent_bytes + c.sent_bytes,
        total.sent_packets == sum.sent_packets + c.sent_packets,
        total.recv_bytes == sum.recv_bytes + c.recv_bytes,
        total.recv_packets == sum.recv_packets + c.recv_packets,
        some@.len() == 0 ==> sum.sent_bytes == 0 && sum.sent_packets == 0 && sum.recv_bytes == 0
            && sum.recv_packets == 0 && sum.send_elapsed.total_nanos() == 0
            && sum.recv_elapsed.total_nanos() == 0,
{
    assert(more@.drop_last() =~= some@);
    assert(total@ == merged(sum@, c@));
    assert(total@.sent_bytes == total.sent_bytes);
}

/// The halves of a side keep their own counts: those of the sender are what was sent, and those of
/// the receiver what was received.
pub proof fn law_halves_are_kept_apart(
    sent: &DatagramCounters,
    received: &DatagramCounters,
    c: DatagramCounters,
)
    requires
        sent.recv_bytes == 0,
        sent.recv_packets == 0,
        sent.recv_elapsed.total_nanos() == 0,
        received.sent_bytes == 0,
        received.sent_packets == 0,
        received.send_elapsed.total_nanos() == 0,
        call_ensures(both_halves, (sent, received), c),
    ensures
        c.sent_bytes == sent.sent_bytes,
        c.sent_packets == sent.sent_packets,
        c.send_elapsed.total_nanos() == sent.send_elapsed.total_nanos(),
        c.recv_bytes == received.recv_bytes,
        c.recv_packets == received.recv_packets,
        c.recv_elapsed.total_nanos() == received.recv_elapsed.total_nanos(),
{
    assert(c@ == merged(sent@, received@));
    assert(c@.sent_bytes == c.sent_bytes);
}

/// A report names what was run by the names that it can be asked for by, and holds the counters.
pub proof fn law_report_names_what_was_run(
    opt: DatagramOpt,
    counters: DatagramCounters,
    r: DatagramReport,
)
    requires
        call_ensures(build_report, (opt, counters), r),
    ensures
        Direction::named(r.direction@) == Some(opt.direction),
        SendMode::named(r.send_mode@) == Some(opt.send_mode),
        Congestion::named(r.congestion@) == Some(opt.congestion),
        r.packet_size == opt.packet_size,
        r.counters == counters,
{
    super::names::law_direction_reads_back(opt.direction);
    super::names::law_send_mode_reads_back(opt.send_mode);
    super::names::law_congestion_reads_back(opt.congestion);
}

/// A report shows a direction exactly where datagrams went that way, with its own counts, and a
/// loss exactly where it knows both sides.
pub proof fn law_report_shows_what_there_is(r: DatagramReport, l: ReportLines)
    requires
        call_ensures(DatagramReport::lines, (&r,), l),
    ensures
        l.sent is Some <==> r.counters.sent_packets > 0,
        l.received is Some <==> r.counters.recv_packets > 0,
        l.loss is Some <==> l.sent is Some && l.received is Some,
        l.sent matches Some(line) ==> line.bytes == r.counters.sent_bytes && line.packets
            == r.counters.sent_packets && line.elapsed == r.counters.send_elapsed,
        l.received matches Some(line) ==> line.bytes == r.counters.recv_bytes && line.packets
            == r.counters.recv_packets && line.elapsed == r.counters.recv_elapsed,
        l.sent matches Some(line) ==> (line.timed <==> line.elapsed.secs > 0 || line.elapsed.nanos
            > 0),
        l.received matches Some(line) ==> (line.timed <==> line.elapsed.secs > 0
            || line.elapsed.nanos > 0),
        l.loss matches Some(loss) ==> loss.sent == r.counters.sent_packets && loss.received
            == r.counters.recv_packets,
{
}

/// Counters can be merged exactly where each of the four counts is of 64 bits.
pub proof fn law_counts_are_of_64_bits(t: Totals)
    ensures
        t.fits() <==> t.sent_bytes < 0x1_0000_0000_0000_0000 && t.sent_packets
            < 0x1_0000_0000_0000_0000 && t.recv_bytes < 0x1_0000_0000_0000_0000 && t.recv_packets
            < 0x1_0000_0000_0000_0000,
{
}

} // verus!
