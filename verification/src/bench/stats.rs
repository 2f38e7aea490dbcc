//! What a benchmark run measured.

use hdrhistogram::Histogram;
use vstd::multiset::Multiset;
use vstd::prelude::*;

verus! {

/// How many decimal digits of a recorded value a histogram keeps.
pub const SIGNIFICANT_DIGITS: u8 = 3;

/// A `Histogram` of the `hdrhistogram` crate: the values that were recorded, rounded to a number of
/// decimal digits.
#[verifier::external_body]
pub struct ValueHistogram {
    hist: Histogram<u64>,
}

/// The values that were recorded in a histogram, as they were handed in.
pub uninterp spec fn recorded(h: ValueHistogram) -> Multiset<u64>;

/// How many decimal digits of a value a histogram keeps.
pub uninterp spec fn digits_kept(h: ValueHistogram) -> u8;

/// Whether a histogram grows to hold a value that is out of its range.
pub uninterp spec fn grows(h: ValueHistogram) -> bool;

/// `Histogram::value_at_percentile`: the value, rounded to `digits` digits, that `percent` of
/// `values` are not above.
pub uninterp spec fn percentile_of(values: Multiset<u64>, digits: u8, percent: u8) -> u64;

/// `Histogram::mean`: the mean of `values`, each rounded to `digits` digits, without its fraction.
pub uninterp spec fn mean_of(values: Multiset<u64>, digits: u8) -> u64;

impl ValueHistogram {
    /// `Histogram::new`: an empty histogram that grows as needed. The call fails where more than
    /// five digits are asked for.
    #[verifier::external_body]
    fn new(digits: u8) -> (r: Option<ValueHistogram>)
        ensures
            r is Some <==> digits <= 5,
            r matches Some(h) ==> recorded(h) == Multiset::<u64>::empty() && digits_kept(h)
                == digits && grows(h),
    {
        Some(ValueHistogram { hist: Histogram::<u64>::new(digits).ok()? })
    }

    /// `Histogram::record`: counts one more value. A histogram that grows takes any value; of
    /// another one nothing is said but that it is left alone where the call fails. Counts are of
    /// 64 bits, so `requires` leaves out a histogram that has as many values as they can count.
    #[verifier::external_body]
    fn record(&mut self, value: u64) -> (ok: bool)
        requires
            recorded(*old(self)).len() < u64::MAX,
        ensures
            grows(*old(self)) ==> ok,
            grows(*final(self)) == grows(*old(self)),
            digits_kept(*final(self)) == digits_kept(*old(self)),
            recorded(*final(self)) == if ok {
                recorded(*old(self)).insert(value)
            } else {
                recorded(*old(self))
            },
    {
        self.hist.record(value).is_ok()
    }

    /// `Histogram::value_at_percentile`, which depends on the recorded values and the digits kept
    /// of them.
    #[verifier::external_body]
    fn value_at_percentile(&self, percent: u8) -> (v: u64)
        ensures
            v == percentile_of(recorded(*self), digits_kept(*self), percent),
    {
        self.hist.value_at_percentile(percent.into())
    }

    /// `Histogram::mean`, which depends on the recorded values and the digits kept of them.
    #[verifier::external_body]
    fn mean(&self) -> (v: u64)
        ensures
            v == mean_of(recorded(*self), digits_kept(*self)),
    {
        self.hist.mean() as u64
    }
}

/// A span of time.
#[derive(Debug, Clone, Copy, PartialEq, Eq, Structural)]
pub struct Elapsed {
    pub secs: u64,
    /// The nanoseconds beyond whole seconds
    pub nanos: u32,
}

impl Elapsed {
    pub open spec fn wf(self) -> bool {
        self.nanos < 1_000_000_000
    }

    /// The span in nanoseconds.
    pub open spec fn total_nanos(self) -> nat {
        (self.secs * 1_000_000_000 + self.nanos) as nat
    }

    /// The span in whole milliseconds.
    pub open spec fn total_millis(self) -> nat {
        self.total_nanos() / 1_000_000
    }

    /// No time at all.
    pub fn zero() -> (e: Self)
        ensures
            e.wf(),
            e.total_nanos() == 0,
    {
        Elapsed { secs: 0, nanos: 0 }
    }

    /// Whether no time has passed.
    pub fn is_zero(&self) -> (r: bool)
        ensures
            r <==> self.total_nanos() == 0,
    {
        self.secs == 0 && self.nanos == 0
    }

    /// The longer of two spans.
    pub fn max(self, other: Self) -> (r: Self)
        requires
            self.wf(),
            other.wf(),
        ensures
            r.wf(),
            r == self || r == other,
            r.total_nanos() == max_nat(self.total_nanos(), other.total_nanos()),
    {
        if other.secs > self.secs || (other.secs == self.secs && other.nanos > self.nanos) {
            other
        } else {
            self
        }
    }

    /// The span in whole milliseconds, its lowest 64 bits.
    pub fn as_millis(&self) -> (r: u64)
        requires
            self.wf(),
        ensures
            r == self.total_millis() % 0x1_0000_0000_0000_0000,
    {
        let millis: u128 = self.secs as u128 * 1000 + (self.nanos / 1_000_000) as u128;
        proof {
            let s = self.secs as int;
            let n = self.nanos as int;
            assert((s * 1_000_000_000 + n) / 1_000_000 == s * 1000 + n / 1_000_000);
            assert(millis as u64 == millis % 0x1_0000_0000_0000_0000) by (bit_vector);
        }
        millis as u64
    }
}

/// The larger of two numbers.
pub open spec fn max_nat(a: nat, b: nat) -> nat {
    if a < b {
        b
    } else {
        a
    }
}

/// Durations and throughputs of the streams of a benchmark run.
pub struct StreamStats {
    /// Milliseconds that streams took
    pub duration_hist: ValueHistogram,
    /// Bytes per second that streams transferred
    pub throughput_hist: ValueHistogram,
}

impl StreamStats {
    /// The histograms are of the kind that a benchmark uses.
    pub open spec fn wf(self) -> bool {
        &&& grows(self.duration_hist)
        &&& grows(self.throughput_hist)
        &&& digits_kept(self.duration_hist) == SIGNIFICANT_DIGITS
        &&& digits_kept(self.throughput_hist) == SIGNIFICANT_DIGITS
    }
}

fn benchmark_histogram() -> (h: ValueHistogram)
    ensures
        recorded(h) == Multiset::<u64>::empty(),
        digits_kept(h) == SIGNIFICANT_DIGITS,
        grows(h),
{
    ValueHistogram::new(SIGNIFICANT_DIGITS).unwrap()
}

impl Default for StreamStats {
    /// No stream has been measured.
    fn default() -> (s: Self)
        ensures
            s.wf(),
            recorded(s.duration_hist) == Multiset::<u64>::empty(),
            recorded(s.throughput_hist) == Multiset::<u64>::empty(),
    {
        StreamStats {
            duration_hist: benchmark_histogram(),
            throughput_hist: benchmark_histogram(),
        }
    }
}

/// The transfer of one stream.
#[derive(Debug, Clone, Copy)]
pub struct TransferResult {
    pub duration: Elapsed,
    pub size: u64,
    /// Bytes per second, without the fraction
    pub throughput: u64,
}

impl TransferResult {
    /// A transfer of `size` bytes, whose throughput was computed from its duration.
    pub fn new(duration: Elapsed, size: u64, throughput: u64) -> (t: Self)
        ensures
            t == (TransferResult { duration, size, throughput }),
    {
        TransferResult { duration, size, throughput }
    }
}

/// What the streams of a benchmark run add up to.
pub struct Stats {
    pub total_size: u64,
    pub total_duration: Elapsed,
    pub streams: usize,
    pub stream_stats: StreamStats,
}

/// One line of the table that sums up the streams.
pub struct MetricRow {
    pub label: &'static str,
    /// Bytes per second
    pub throughput: u64,
    /// Milliseconds
    pub duration: u64,
}

impl Stats {
    /// Both histograms hold one value for each stream.
    pub open spec fn wf(self) -> bool {
        &&& self.stream_stats.wf()
        &&& recorded(self.stream_stats.duration_hist).len() == self.streams
        &&& recorded(self.stream_stats.throughput_hist).len() == self.streams
    }

    /// Counts a stream that has finished.
    pub fn stream_finished(&mut self, stream_result: TransferResult)
        requires
            old(self).wf(),
            stream_result.duration.wf(),
            old(self).total_size + stream_result.size <= u64::MAX,
            old(self).streams < usize::MAX,
        ensures
            final(self).wf(),
            final(self).total_size == old(self).total_size + stream_result.size,
            final(self).total_duration == old(self).total_duration,
            final(self).streams == old(self).streams + 1,
            recorded(final(self).stream_stats.duration_hist) == recorded(
                old(self).stream_stats.duration_hist,
            ).insert(
                (stream_result.duration.total_millis() % 0x1_0000_0000_0000_0000) as u64,
            ),
            recorded(final(self).stream_stats.throughput_hist) == recorded(
                old(self).stream_stats.throughput_hist,
            ).insert(stream_result.throughput),
    {
        self.total_size += stream_result.size;
        self.streams += 1;
        self.stream_stats.duration_hist.record(stream_result.duration.as_millis());
        self.stream_stats.throughput_hist.record(stream_result.throughput);
    }

    /// A line of the table: what `percent` of the streams are not above.
    pub open spec fn percentile_row(self, row: MetricRow, label: Seq<char>, percent: u8) -> bool {
        let stats = self.stream_stats;
        &&& row.label@ == label
        &&& row.throughput == percentile_of(
            recorded(stats.throughput_hist),
            digits_kept(stats.throughput_hist),
            percent,
        )
        &&& row.duration == percentile_of(
            recorded(stats.duration_hist),
            digits_kept(stats.duration_hist),
            percent,
        )
    }

    /// The line of the table with the means.
    pub open spec fn mean_row(self, row: MetricRow) -> bool {
        let stats = self.stream_stats;
        &&& row.label@ == "AVG "@
        &&& row.throughput == mean_of(
            recorded(stats.throughput_hist),
            digits_kept(stats.throughput_hist),
        )
        &&& row.duration == mean_of(
            recorded(stats.duration_hist),
            digits_kept(stats.duration_hist),
        )
    }

    fn percentile_metric(&self, label: &'static str, percent: u8) -> (row: MetricRow)
        ensures
            self.percentile_row(row, label@, percent),
    {
        MetricRow {
            label,
            throughput: self.stream_stats.throughput_hist.value_at_percentile(percent),
            duration: self.stream_stats.duration_hist.value_at_percentile(percent),
        }
    }

    /// The table that sums up the streams: the means, then the spread from the smallest to the
    /// largest value.
    pub fn metrics(&self) -> (rows: Vec<MetricRow>)
        ensures
            rows@.len() == 6,
            self.mean_row(rows@[0]),
            self.percentile_row(rows@[1], "P0  "@, 0),
            self.percentile_row(rows@[2], "P10 "@, 10),
            self.percentile_row(rows@[3], "P50 "@, 50),
            self.percentile_row(rows@[4], "P90 "@, 90),
            self.percentile_row(rows@[5], "P100"@, 100),
    {
        let mut rows: Vec<MetricRow> = Vec::new();
        rows.push(
            MetricRow {
                label: "AVG ",
                throughput: self.stream_stats.throughput_hist.mean(),
                duration: self.stream_stats.duration_hist.mean(),
            },
        );
        rows.push(self.percentile_metric("P0  ", 0));
        rows.push(self.percentile_metric("P10 ", 10));
        rows.push(self.percentile_metric("P50 ", 50));
        rows.push(self.percentile_metric("P90 ", 90));
        rows.push(self.percentile_metric("P100", 100));
        rows
    }
}

impl Default for Stats {
    /// No stream has finished.
    fn default() -> (s: Self)
        ensures
            s.wf(),
            s.total_size == 0,
            s.total_duration.total_nanos() == 0,
            s.streams == 0,
            recorded(s.stream_stats.duration_hist) == Multiset::<u64>::empty(),
            recorded(s.stream_stats.throughput_hist) == Multiset::<u64>::empty(),
    {
        Stats {
            total_size: 0,
            total_duration: Elapsed::zero(),
            streams: 0,
            stream_stats: StreamStats::default(),
        }
    }
}

/// A span counts its seconds and nanoseconds, and its milliseconds are the whole ones.
pub proof fn law_spans_count_nanoseconds(e: Elapsed, millis: u64)
    requires
        e.wf(),
        call_ensures(Elapsed::as_millis, (&e,), millis),
    ensures
        e.total_nanos() == e.secs * 1_000_000_000 + e.nanos,
        e.total_millis() * 1_000_000 <= e.total_nanos() < (e.total_millis() + 1) * 1_000_000,
        e.total_millis() <= u64::MAX ==> millis == e.total_millis(),
        e.nanos < 1_000_000_000,
{
}

/// Two spans are as long as each other only if they are the same, and the longer one is taken.
pub proof fn law_longer_span_is_taken(a: Elapsed, b: Elapsed, r: Elapsed)
    requires
        a.wf(),
        b.wf(),
        call_ensures(Elapsed::max, (a, b), r),
    ensures
        a.total_nanos() == b.total_nanos() <==> a == b,
        r == a || r == b,
        r.total_nanos() >= a.total_nanos(),
        r.total_nanos() >= b.total_nanos(),
        (a.secs > b.secs || a.secs == b.secs && a.nanos > b.nanos) ==> r == a,
        (b.secs > a.secs || a.secs == b.secs && b.nanos > a.nanos) ==> r == b,
{
}

/// A finished stream adds its bytes to the total, itself to the number of streams, and its duration
/// and throughput each to its own histogram, whatever was recorded before.
pub proof fn law_finished_stream_is_counted_once(s: &mut Stats, t: TransferResult, v: u64)
    requires
        old(s).wf(),
        t.duration.wf(),
        t.duration.total_millis() <= u64::MAX,
        call_ensures(Stats::stream_finished, (s, t), ()),
    ensures
        final(s).total_size == old(s).total_size + t.size,
        final(s).streams == old(s).streams + 1,
        final(s).total_duration == old(s).total_duration,
        recorded(final(s).stream_stats.throughput_hist).count(v) == recorded(
            old(s).stream_stats.throughput_hist,
        ).count(v) + (if v == t.throughput {
            1nat
        } else {
            0
        }),
        recorded(final(s).stream_stats.duration_hist).count(v) == recorded(
            old(s).stream_stats.duration_hist,
        ).count(v) + (if v == t.duration.total_millis() {
            1nat
        } else {
            0
        }),
        recorded(final(s).stream_stats.duration_hist).len() == final(s).streams,
        recorded(final(s).stream_stats.throughput_hist).len() == final(s).streams,
{
    broadcast use vstd::multiset::group_multiset_axioms;

}

/// The table has the means, then five percentiles in rising order, each of throughput and duration
/// from their own histogram, of three digits.
pub proof fn law_metrics_are_of_their_histograms(
    s: Stats,
    rows: Vec<MetricRow>,
    i: int,
    percent: u8,
    label: &'static str,
)
    requires
        s.wf(),
        call_ensures(Stats::metrics, (&s,), rows),
        i == 1 && percent == 0 && label@ == "P0  "@ || i == 2 && percent == 10 && label@ == "P10 "@
            || i == 3 && percent == 50 && label@ == "P50 "@ || i == 4 && percent == 90 && label@
            == "P90 "@ || i == 5 && percent == 100 && label@ == "P100"@,
    ensures
        rows@.len() == 6,
        rows@[0].label@ == "AVG "@,
        rows@[0].throughput == mean_of(recorded(s.stream_stats.throughput_hist), 3),
        rows@[0].duration == mean_of(recorded(s.stream_stats.duration_hist), 3),
        rows@[i].label@ == label@,
        rows@[i].throughput == percentile_of(
            recorded(s.stream_stats.throughput_hist),
            3,
            percent,
        ),
        rows@[i].duration == percentile_of(recorded(s.stream_stats.duration_hist), 3, percent),
{
}

} // verus!
