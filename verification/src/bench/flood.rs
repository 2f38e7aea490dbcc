//! The datagram flood: who sends, what is sent, how it ends and what counts.

use bytes::Bytes;
use vstd::prelude::*;

use super::counters::DatagramCounters;
use super::names::{Direction, SendMode};
use super::options::DatagramOpt;
use super::stats::Elapsed;
use crate::payload::{as_slice, bytes_view, from_vec};

verus! {

/// Application close code used to signal a clean end of the benchmark: "DONE".
pub const DONE_CODE: u32 = 0x444f4e45;

/// What every byte of a flood packet is.
pub const FLOOD_BYTE: u8 = 0xAB;

/// The one byte of the datagram that marks the end of the flood.
pub const DONE_BYTE: u8 = 0xFF;

/// Milliseconds between the end of the flood and each end marker, the first and those that follow.
/// One interval lets the datagram tail land before the first marker; the resends cover marker loss.
pub const DONE_INTERVAL_MILLIS: u64 = 250;

/// Written on the coordination stream by the client, so that the server learns of the stream.
pub const START_BYTE: u8 = 0x53;

/// Written on the coordination stream by a side that has received all it will count.
pub const FINISH_BYTE: u8 = 0x46;

/// Which end of the connection a side is.
#[derive(Debug, Clone, Copy, PartialEq, Eq, Structural)]
pub enum Role {
    Client,
    Server,
}

/// What a side does in the flood.
#[derive(Debug, Clone, Copy, PartialEq, Eq, Structural)]
pub enum Part {
    Sender,
    Receiver,
    Both,
}

/// One thing that a side does, in order.
#[derive(Debug, Clone, Copy, PartialEq, Eq, Structural)]
pub enum Step {
    /// Open the coordination stream
    OpenStream,
    /// Accept the coordination stream
    AcceptStream,
    /// Write the start byte
    WriteStart,
    /// Read the start byte
    ReadStart,
    /// Start to count received datagrams while the steps after this are taken
    SpawnReceive,
    /// Count received datagrams up to the end marker
    Receive,
    /// Wait until the datagrams being counted have reached the end marker
    JoinReceive,
    /// Send the datagrams
    Flood,
    /// Start to repeat the end marker while the steps after this are taken
    SpawnDone,
    /// Repeat the end marker until the peer closes the connection
    SendDone,
    /// Stop repeating the end marker
    AbortDone,
    /// Write the finish byte
    WriteFinish,
    /// Read the finish byte of the peer
    ReadFinish,
    /// Close the connection
    Close,
    /// Print the statistics of the connection
    PrintStats,
}

impl Part {
    /// The part of a side in a flood.
    pub open spec fn of(role: Role, direction: Direction) -> Part {
        match (role, direction) {
            (_, Direction::Both) => Part::Both,
            (Role::Client, Direction::Send) | (Role::Server, Direction::Recv) => Part::Sender,
            _ => Part::Receiver,
        }
    }

    /// What the statistics of the connection are headed with.
    pub open spec fn label_spec(self) -> Seq<char> {
        match self {
            Part::Sender => "sender"@,
            Part::Receiver => "receiver"@,
            Part::Both => "both"@,
        }
    }

    /// What the statistics of the connection are headed with.
    pub fn label(self) -> (text: &'static str)
        ensures
            text@ == self.label_spec(),
    {
        match self {
            Part::Sender => "sender",
            Part::Receiver => "receiver",
            Part::Both => "both",
        }
    }
}

/// The part of a side in a flood: `send` has the client send to the server, `recv` the server to
/// the client, and with `both` each side sends and receives at once.
pub fn part(role: Role, direction: Direction) -> (p: Part)
    ensures
        p == Part::of(role, direction),
{
    match direction {
        Direction::Both => Part::Both,
        Direction::Send => match role {
            Role::Client => Part::Sender,
            Role::Server => Part::Receiver,
        },
        Direction::Recv => match role {
            Role::Client => Part::Receiver,
            Role::Server => Part::Sender,
        },
    }
}

impl Step {
    /// Whether a side gives up where the step fails. The peer may close right after it has written
    /// its finish byte, so the exchange of these may fail.
    pub open spec fn must_succeed_spec(self) -> bool {
        self != Step::WriteFinish && self != Step::ReadFinish
    }

    /// Whether a side gives up where the step fails.
    pub fn must_succeed(self) -> (r: bool)
        ensures
            r == self.must_succeed_spec(),
    {
        match self {
            Step::WriteFinish | Step::ReadFinish => false,
            _ => true,
        }
    }
}

/// What a side does before the statistics, in order.
///
/// - A sender floods, then repeats the end marker until the receiver closes.
/// - A receiver counts datagrams until the end marker, then closes: it drives the close, so that no
///   datagram it could still count is cut off.
/// - Where both sides flood, only the close is coordinated over a stream, so that neither side's
///   close cuts off datagrams the other is still counting: each side writes its finish byte once it
///   has received the peer's end marker, and closes only after the peer's finish byte.
pub open spec fn script(role: Role, direction: Direction) -> Seq<Step> {
    match Part::of(role, direction) {
        Part::Sender => seq![Step::Flood, Step::SendDone],
        Part::Receiver => seq![Step::Receive, Step::Close],
        Part::Both => seq![
            if role == Role::Client {
                Step::OpenStream
            } else {
                Step::AcceptStream
            },
            if role == Role::Client {
                Step::WriteStart
            } else {
                Step::ReadStart
            },
            Step::SpawnReceive,
            Step::Flood,
            Step::SpawnDone,
            Step::JoinReceive,
            Step::WriteFinish,
            Step::ReadFinish,
            Step::AbortDone,
            Step::Close,
        ],
    }
}

/// What a side does, in order; the statistics are printed at the end, if at all.
pub fn run_side(role: Role, direction: Direction, stats: bool) -> (steps: Vec<Step>)
    ensures
        steps@ == script(role, direction) + if stats {
            seq![Step::PrintStats]
        } else {
            Seq::<Step>::empty()
        },
{
    let mut steps: Vec<Step> = match part(role, direction) {
        Part::Sender => vec![Step::Flood, Step::SendDone],
        Part::Receiver => vec![Step::Receive, Step::Close],
        Part::Both => run_both(role),
    };
    assert(steps@ =~= script(role, direction));
    if stats {
        steps.push(Step::PrintStats);
    }
    steps
}

/// What a side that sends and receives does before the statistics, in order.
pub fn run_both(role: Role) -> (steps: Vec<Step>)
    ensures
        steps@ == script(role, Direction::Both),
{
    let (stream, start) = match role {
        Role::Client => (Step::OpenStream, Step::WriteStart),
        Role::Server => (Step::AcceptStream, Step::ReadStart),
    };
    let steps: Vec<Step> = vec![
        stream,
        start,
        Step::SpawnReceive,
        Step::Flood,
        Step::SpawnDone,
        Step::JoinReceive,
        Step::WriteFinish,
        Step::ReadFinish,
        Step::AbortDone,
        Step::Close,
    ];
    assert(steps@ =~= script(role, Direction::Both));
    steps
}

/// Why a flood cannot be sent.
#[derive(Debug, Clone, Copy, PartialEq, Eq, Structural)]
pub enum SendPlanError {
    /// The peer takes no datagrams, or they are disabled
    Unsupported,
    /// A packet would be empty
    EmptyPacket,
    /// Batches cannot wait for buffer space
    BatchWaits,
}

impl SendPlanError {
    /// The error in words.
    pub fn message(&self) -> (text: &'static str)
        ensures
            text@ == match *self {
                SendPlanError::Unsupported => "datagrams unsupported or disabled"@,
                SendPlanError::EmptyPacket => "packet_size resolves to 0"@,
                SendPlanError::BatchWaits => "--batch-size > 1 requires --send-mode drop"@,
            },
    {
        match self {
            SendPlanError::Unsupported => "datagrams unsupported or disabled",
            SendPlanError::EmptyPacket => "packet_size resolves to 0",
            SendPlanError::BatchWaits => "--batch-size > 1 requires --send-mode drop",
        }
    }
}

/// How a flood is sent.
#[derive(Debug, Clone, Copy, PartialEq, Eq, Structural)]
pub struct SendPlan {
    /// The payload size of each datagram
    pub pkt_size: usize,
    /// How many datagrams go into one call
    pub batch_size: usize,
    pub mode: SendMode,
    /// How many bytes to send in all
    pub total_bytes: u64,
}

impl SendPlan {
    pub open spec fn wf(self) -> bool {
        &&& self.pkt_size > 0
        &&& self.batch_size > 0
        &&& self.batch_size > 1 ==> self.mode == SendMode::Drop
    }

    /// How many bytes go into one call.
    pub open spec fn call_bytes(self) -> nat {
        self.batch_size as nat * self.pkt_size as nat
    }
}

/// The smaller of two numbers.
pub open spec fn min_usize(a: usize, b: usize) -> usize {
    if a < b {
        a
    } else {
        b
    }
}

/// The number of datagrams in one call: at least one.
pub open spec fn slots(opt: DatagramOpt) -> usize {
    if opt.batch_size == 0 {
        1
    } else {
        opt.batch_size
    }
}

/// How many datagrams a call receives: at least one.
pub fn receive_slots(opt: &DatagramOpt) -> (n: usize)
    ensures
        n == slots(*opt),
        n > 0,
{
    if opt.batch_size == 0 {
        1
    } else {
        opt.batch_size
    }
}

/// Whether datagrams are received by the call that takes many: a single slot takes the other one.
pub fn receives_many(slots: usize) -> (r: bool)
    ensures
        r <==> slots != 1,
{
    slots != 1
}

/// Plans a flood over a connection on which a datagram can have `max_size` bytes at most, if it
/// carries datagrams at all.
pub fn send_plan(opt: &DatagramOpt, max_size: Option<usize>) -> (r: Result<SendPlan, SendPlanError>)
    ensures
        match max_size {
            None => r == Err::<SendPlan, _>(SendPlanError::Unsupported),
            Some(max) => if min_usize(opt.packet_size, max) == 0 {
                r == Err::<SendPlan, _>(SendPlanError::EmptyPacket)
            } else if slots(*opt) > 1 && opt.send_mode == SendMode::Wait {
                r == Err::<SendPlan, _>(SendPlanError::BatchWaits)
            } else {
                r == Ok::<_, SendPlanError>(
                    (SendPlan {
                        pkt_size: min_usize(opt.packet_size, max),
                        batch_size: slots(*opt),
                        mode: opt.send_mode,
                        total_bytes: opt.total_bytes,
                    }),
                )
            },
        },
        r matches Ok(plan) ==> plan.wf(),
{
    let max: usize = match max_size {
        None => {
            return Err(SendPlanError::Unsupported);
        },
        Some(max) => max,
    };
    let pkt_size: usize = if opt.packet_size < max {
        opt.packet_size
    } else {
        max
    };
    if pkt_size == 0 {
        return Err(SendPlanError::EmptyPacket);
    }
    let batch_size: usize = receive_slots(opt);
    if batch_size > 1 && opt.send_mode == SendMode::Wait {
        return Err(SendPlanError::BatchWaits);
    }
    Ok(SendPlan { pkt_size, batch_size, mode: opt.send_mode, total_bytes: opt.total_bytes })
}

/// The payload of a flood packet of `n` bytes.
pub open spec fn flood_bytes(n: nat) -> Seq<u8> {
    Seq::new(n, |i: int| FLOOD_BYTE)
}

/// The payload of a flood packet.
pub fn flood_payload(pkt_size: usize) -> (payload: Bytes)
    ensures
        bytes_view(payload) == flood_bytes(pkt_size as nat),
{
    let mut v: Vec<u8> = Vec::new();
    v.resize(pkt_size, FLOOD_BYTE);
    assert(v@ =~= flood_bytes(pkt_size as nat));
    from_vec(v)
}

/// The payloads of the flood packets that go into one call.
pub fn flood_batch(payload: &Bytes, batch_size: usize) -> (batch: Vec<Bytes>)
    ensures
        batch@.len() == batch_size,
        forall|i: int|
            0 <= i < batch_size ==> bytes_view(#[trigger] batch@[i]) == bytes_view(*payload),
{
    let mut batch: Vec<Bytes> = Vec::new();
    while batch.len() < batch_size
        invariant
            batch@.len() <= batch_size,
            forall|i: int|
                0 <= i < batch@.len() ==> bytes_view(#[trigger] batch@[i]) == bytes_view(*payload),
        decreases batch_size - batch@.len(),
    {
        batch.push(payload.clone());
    }
    batch
}

/// What a sender has to do next.
#[derive(Debug, Clone, Copy, PartialEq, Eq, Structural)]
pub enum SendAction {
    /// Look how much of the send buffer is free, until these bytes fit.
    ///
    /// Paces the flood to the rate of actual transmission. Without this the sender displaces its
    /// own queued datagrams faster than they can hit the wire, and the benchmark measures queueing
    /// speed instead of throughput.
    AwaitSpace { bytes: usize },
    /// Send one datagram, dropping old ones on backpressure
    Send,
    /// Send one datagram, waiting for buffer space on backpressure
    SendWaiting,
    /// Send a batch of datagrams
    SendMany,
    /// All has been sent
    Finished,
}

/// The sending side of a flood.
pub struct Sender {
    pub plan: SendPlan,
    pub sent_bytes: u64,
    pub sent_packets: u64,
    /// Whether the send buffer has room for the next call
    pub has_space: bool,
}

impl Sender {
    /// The bytes are those of the packets, and no call is made once all has been sent.
    pub open spec fn wf(self) -> bool {
        &&& self.plan.wf()
        &&& self.plan.total_bytes > 0 ==> self.plan.call_bytes() <= usize::MAX
        &&& self.sent_bytes as nat == self.sent_packets as nat * self.plan.pkt_size as nat
        &&& self.sent_bytes > 0 ==> self.sent_bytes < self.plan.total_bytes
            + self.plan.call_bytes()
    }

    /// What has to be done next.
    pub open spec fn action_spec(self) -> SendAction {
        if self.sent_bytes >= self.plan.total_bytes {
            SendAction::Finished
        } else if self.plan.mode == SendMode::Wait {
            SendAction::SendWaiting
        } else if !self.has_space {
            SendAction::AwaitSpace { bytes: self.plan.call_bytes() as usize }
        } else if self.plan.batch_size > 1 {
            SendAction::SendMany
        } else {
            SendAction::Send
        }
    }

    /// Nothing has been sent yet. The size of a call has to be representable if there is one.
    pub fn new(plan: SendPlan) -> (s: Self)
        requires
            plan.wf(),
            plan.total_bytes > 0 ==> plan.call_bytes() <= usize::MAX,
        ensures
            s.wf(),
            s.plan == plan,
            s.sent_bytes == 0,
            s.sent_packets == 0,
            !s.has_space,
    {
        assert(0 * plan.pkt_size as nat == 0);
        Sender { plan, sent_bytes: 0, sent_packets: 0, has_space: false }
    }

    /// What has to be done next.
    pub fn action(&self) -> (a: SendAction)
        requires
            self.wf(),
        ensures
            a == self.action_spec(),
    {
        if self.sent_bytes >= self.plan.total_bytes {
            return SendAction::Finished;
        }
        match self.plan.mode {
            SendMode::Wait => SendAction::SendWaiting,
            SendMode::Drop => if !self.has_space {
                SendAction::AwaitSpace { bytes: self.plan.batch_size * self.plan.pkt_size }
            } else if self.plan.batch_size > 1 {
                SendAction::SendMany
            } else {
                SendAction::Send
            },
        }
    }

    /// The send buffer was found to have `space` bytes free.
    pub fn space_found(&mut self, space: usize)
        requires
            old(self).wf(),
            old(self).sent_bytes < old(self).plan.total_bytes,
        ensures
            final(self).wf(),
            final(self).plan == old(self).plan,
            final(self).sent_bytes == old(self).sent_bytes,
            final(self).sent_packets == old(self).sent_packets,
            final(self).has_space <==> space >= old(self).plan.call_bytes(),
    {
        self.has_space = space >= self.plan.batch_size * self.plan.pkt_size;
    }

    /// A call has queued `queued` datagrams.
    pub fn sent(&mut self, queued: usize)
        requires
            old(self).wf(),
            old(self).sent_bytes < old(self).plan.total_bytes,
            queued <= old(self).plan.batch_size,
            old(self).sent_bytes + queued * old(self).plan.pkt_size <= u64::MAX,
        ensures
            final(self).wf(),
            final(self).plan == old(self).plan,
            final(self).sent_bytes == old(self).sent_bytes + queued * old(self).plan.pkt_size,
            final(self).sent_packets == old(self).sent_packets + queued,
            !final(self).has_space,
    {
        proof {
            let q = queued as int;
            let p = self.plan.pkt_size as int;
            let b = self.plan.batch_size as int;
            let n = self.sent_packets as int;
            assert(q * p <= b * p) by (nonlinear_arith)
                requires
                    0 <= q <= b,
                    p > 0,
            ;
            assert((n + q) * p == n * p + q * p) by (nonlinear_arith);
            assert(n + q <= (n + q) * p) by (nonlinear_arith)
                requires
                    n + q >= 0,
                    p > 0,
            ;
        }
        self.sent_bytes += (queued * self.plan.pkt_size) as u64;
        self.sent_packets += queued as u64;
        self.has_space = false;
    }

    /// The counters of a sender after `elapsed`.
    pub fn counters(&self, elapsed: Elapsed) -> (c: DatagramCounters)
        requires
            elapsed.wf(),
        ensures
            c.wf(),
            c.sent_bytes == self.sent_bytes,
            c.sent_packets == self.sent_packets,
            c.send_elapsed == elapsed,
            c@.recv_bytes == 0,
            c@.recv_packets == 0,
            c@.recv_elapsed == 0,
    {
        DatagramCounters {
            sent_bytes: self.sent_bytes,
            sent_packets: self.sent_packets,
            send_elapsed: elapsed,
            recv_bytes: 0,
            recv_packets: 0,
            recv_elapsed: Elapsed::zero(),
        }
    }
}

/// What happened to a side that repeats the end marker.
#[derive(Debug, Clone, Copy, PartialEq, Eq, Structural)]
pub enum DoneEvent {
    /// It is about to start
    Started,
    /// The peer closed the connection
    Closed,
    /// An interval has passed
    IntervalElapsed,
    /// The marker was sent
    MarkerSent,
    /// The marker could not be sent
    MarkerRefused,
}

/// What a side that repeats the end marker has to do next.
#[derive(Debug, Clone, Copy, PartialEq, Eq, Structural)]
pub enum DoneAction {
    /// Wait for an interval, or for the peer to close the connection
    Wait,
    SendMarker,
    Stop,
}

/// Signals the end of the flood in-band: waits for one interval so the datagram tail lands first,
/// then sends the end marker every interval until the peer closes the connection.
pub fn send_done_until_closed(event: DoneEvent) -> (a: DoneAction)
    ensures
        a == match event {
            DoneEvent::Started | DoneEvent::MarkerSent => DoneAction::Wait,
            DoneEvent::IntervalElapsed => DoneAction::SendMarker,
            DoneEvent::Closed | DoneEvent::MarkerRefused => DoneAction::Stop,
        },
{
    match event {
        DoneEvent::Started => DoneAction::Wait,
        DoneEvent::MarkerSent => DoneAction::Wait,
        DoneEvent::IntervalElapsed => DoneAction::SendMarker,
        DoneEvent::Closed => DoneAction::Stop,
        DoneEvent::MarkerRefused => DoneAction::Stop,
    }
}

/// The datagram that marks the end of the flood.
pub fn done_datagram() -> (marker: Bytes)
    ensures
        is_marker(marker),
{
    let v: Vec<u8> = vec![DONE_BYTE];
    assert(v@ =~= seq![DONE_BYTE]);
    from_vec(v)
}

/// Whether a datagram marks the end of the flood.
pub open spec fn is_marker(d: Bytes) -> bool {
    bytes_view(d) == seq![DONE_BYTE]
}

fn marks_end(d: &Bytes) -> (r: bool)
    ensures
        r == is_marker(*d),
{
    let s: &[u8] = as_slice(d);
    let r = s.len() == 1 && s[0] == DONE_BYTE;
    assert(r ==> s@ =~= seq![DONE_BYTE]);
    r
}

/// How many datagrams come before the first end marker.
pub open spec fn before_marker(batch: Seq<Bytes>) -> nat
    decreases batch.len(),
{
    if batch.len() == 0 || is_marker(batch[0]) {
        0
    } else {
        1 + before_marker(batch.drop_first())
    }
}

/// The number of payload bytes of datagrams.
pub open spec fn payload_bytes(batch: Seq<Bytes>) -> nat
    decreases batch.len(),
{
    if batch.len() == 0 {
        0
    } else {
        payload_bytes(batch.drop_last()) + bytes_view(batch.last()).len()
    }
}

proof fn lemma_before_marker(batch: Seq<Bytes>, k: int)
    requires
        0 <= k <= batch.len(),
        forall|i: int| 0 <= i < k ==> !is_marker(#[trigger] batch[i]),
        k < batch.len() ==> is_marker(batch[k]),
    ensures
        before_marker(batch) == k,
    decreases k,
{
    if k > 0 {
        assert(!is_marker(batch[0]));
        let rest = batch.drop_first();
        assert forall|i: int| 0 <= i < k - 1 implies !is_marker(#[trigger] rest[i]) by {
            assert(rest[i] == batch[i + 1]);
        }
        lemma_before_marker(rest, k - 1);
    }
}

proof fn lemma_before_marker_bound(batch: Seq<Bytes>, k: int)
    requires
        0 <= k <= batch.len(),
        forall|i: int| 0 <= i < k ==> !is_marker(#[trigger] batch[i]),
    ensures
        k <= before_marker(batch) <= batch.len(),
    decreases batch.len(),
{
    if k > 0 {
        assert(!is_marker(batch[0]));
    }
    if batch.len() > 0 && !is_marker(batch[0]) {
        let rest = batch.drop_first();
        let k1 = if k > 0 {
            k - 1
        } else {
            0
        };
        assert forall|i: int| 0 <= i < k1 implies !is_marker(#[trigger] rest[i]) by {
            assert(rest[i] == batch[i + 1]);
        }
        lemma_before_marker_bound(rest, k1);
    }
}

pub proof fn lemma_payload_bytes_monotone(batch: Seq<Bytes>, j: int, k: int)
    requires
        0 <= j <= k <= batch.len(),
    ensures
        payload_bytes(batch.take(j)) <= payload_bytes(batch.take(k)),
    decreases k - j,
{
    if j < k {
        lemma_payload_bytes_monotone(batch, j, k - 1);
        assert(batch.take(k).drop_last() =~= batch.take(k - 1));
    }
}

/// The receiving side of a flood.
pub struct FloodReceiver {
    pub recv_bytes: u64,
    pub recv_packets: u64,
    /// Whether the end marker has arrived
    pub done: bool,
}

impl FloodReceiver {
    /// Nothing has been received yet.
    pub fn new() -> (r: Self)
        ensures
            r.recv_bytes == 0,
            r.recv_packets == 0,
            !r.done,
    {
        FloodReceiver { recv_bytes: 0, recv_packets: 0, done: false }
    }

    /// Counts the first `n` datagrams of `out`, up to the end marker if it is among them. Returns
    /// how many were counted.
    pub fn recv_flood(&mut self, out: &Vec<Bytes>, n: usize) -> (counted: usize)
        requires
            n <= out@.len(),
            old(self).recv_packets + before_marker(out@.take(n as int)) <= u64::MAX,
            old(self).recv_bytes + payload_bytes(
                out@.take(before_marker(out@.take(n as int)) as int),
            ) <= u64::MAX,
        ensures
            counted == before_marker(out@.take(n as int)),
            counted <= n,
            final(self).recv_packets == old(self).recv_packets + counted,
            final(self).recv_bytes == old(self).recv_bytes + payload_bytes(
                out@.take(counted as int),
            ),
            final(self).done <==> old(self).done || counted < n,
    {
        let ghost batch = out@.take(n as int);
        let mut i: usize = 0;
        while i < n
            invariant
                i <= n <= out@.len(),
                batch == out@.take(n as int),
                forall|j: int| 0 <= j < i ==> !is_marker(#[trigger] batch[j]),
                old(self).recv_packets + before_marker(batch) <= u64::MAX,
                old(self).recv_bytes + payload_bytes(out@.take(before_marker(batch) as int))
                    <= u64::MAX,
                self.recv_packets == old(self).recv_packets + i,
                self.recv_bytes == old(self).recv_bytes + payload_bytes(out@.take(i as int)),
                self.done == old(self).done,
            decreases n - i,
        {
            let d: &Bytes = &out[i];
            assert(batch[i as int] == *d);
            if marks_end(d) {
                proof {
                    lemma_before_marker(batch, i as int);
                }
                self.done = true;
                return i;
            }
            proof {
                lemma_before_marker_bound(batch, i + 1);
                lemma_payload_bytes_monotone(out@, i + 1, before_marker(batch) as int);
                assert(out@.take(i + 1).drop_last() =~= out@.take(i as int));
            }
            self.recv_bytes += d.len() as u64;
            self.recv_packets += 1;
            i += 1;
        }
        proof {
            lemma_before_marker(batch, n as int);
        }
        n
    }

    /// The counters of a receiver whose last datagram came after `elapsed`.
    pub fn counters(&self, elapsed: Elapsed) -> (c: DatagramCounters)
        requires
            elapsed.wf(),
        ensures
            c.wf(),
            c.recv_bytes == self.recv_bytes,
            c.recv_packets == self.recv_packets,
            c.recv_elapsed == elapsed,
            c@.sent_bytes == 0,
            c@.sent_packets == 0,
            c@.send_elapsed == 0,
    {
        DatagramCounters {
            sent_bytes: 0,
            sent_packets: 0,
            send_elapsed: Elapsed::zero(),
            recv_bytes: self.recv_bytes,
            recv_packets: self.recv_packets,
            recv_elapsed: elapsed,
        }
    }
}

/// In a flood of one direction exactly one side sends and the other receives; otherwise both do
/// both.
pub proof fn law_parts_complement_each_other(direction: Direction)
    ensures
        ({
            let client = Part::of(Role::Client, direction);
            let server = Part::of(Role::Server, direction);
            &&& client == Part::Sender <==> server == Part::Receiver
            &&& client == Part::Receiver <==> server == Part::Sender
            &&& client == Part::Both <==> server == Part::Both
            &&& client == Part::Both <==> direction == Direction::Both
        }),
{
}

/// Nothing is cut off by a close: a side closes only once it has received the end marker of the
/// peer, and where both sides flood, only after it has told the peer so and asked for the same. A
/// side that only sends never closes.
pub proof fn law_close_comes_last(role: Role, direction: Direction, i: int)
    requires
        0 <= i < script(role, direction).len(),
        script(role, direction)[i] == Step::Close,
    ensures
        Part::of(role, direction) != Part::Sender,
        i == script(role, direction).len() - 1,
        Part::of(role, direction) == Part::Receiver ==> script(role, direction).take(i).contains(
            Step::Receive,
        ),
        Part::of(role, direction) == Part::Both ==> exists|j: int, k: int, l: int|
            0 <= j < k < l < i && #[trigger] script(role, direction)[j] == Step::JoinReceive
                && #[trigger] script(role, direction)[k] == Step::WriteFinish
                && #[trigger] script(role, direction)[l] == Step::ReadFinish,
{
    let s = script(role, direction);
    match Part::of(role, direction) {
        Part::Sender => {},
        Part::Receiver => {
            assert(s.take(i)[0] == Step::Receive);
        },
        Part::Both => {
            assert(s[5] == Step::JoinReceive && s[6] == Step::WriteFinish && s[7]
                == Step::ReadFinish);
        },
    }
}

/// A sender that has finished has sent what it was asked to, and less than one call more.
pub proof fn law_finished_sender_has_sent_enough(s: Sender)
    requires
        s.wf(),
        s.action_spec() == SendAction::Finished,
    ensures
        s.plan.total_bytes <= s.sent_bytes,
        s.plan.total_bytes > 0 ==> s.sent_bytes < s.plan.total_bytes + s.plan.call_bytes(),
        s.sent_bytes as nat == s.sent_packets as nat * s.plan.pkt_size as nat,
{
}

/// No flood packet can be taken for the end marker.
pub proof fn law_flood_packet_is_no_marker(d: Bytes, n: nat)
    requires
        bytes_view(d) == flood_bytes(n),
    ensures
        !is_marker(d),
{
    if n == 1 {
        assert(bytes_view(d)[0] == FLOOD_BYTE);
        assert(seq![DONE_BYTE][0] == DONE_BYTE);
    } else {
        assert(seq![DONE_BYTE].len() == 1);
    }
}

/// Of a flood that arrives whole, every packet is counted, and nothing else.
pub proof fn law_whole_flood_is_counted(batch: Seq<Bytes>, packets: nat, pkt_size: nat)
    requires
        packets < batch.len(),
        forall|i: int|
            0 <= i < packets ==> bytes_view(#[trigger] batch[i]) == flood_bytes(pkt_size),
        is_marker(batch[packets as int]),
    ensures
        before_marker(batch) == packets,
        payload_bytes(batch.take(packets as int)) == packets * pkt_size,
{
    assert forall|i: int| 0 <= i < packets implies !is_marker(#[trigger] batch[i]) by {
        law_flood_packet_is_no_marker(batch[i], pkt_size);
    }
    lemma_before_marker(batch, packets as int);
    lemma_flood_bytes_sum(batch, packets, pkt_size);
}

proof fn lemma_flood_bytes_sum(batch: Seq<Bytes>, packets: nat, pkt_size: nat)
    requires
        packets <= batch.len(),
        forall|i: int|
            0 <= i < packets ==> bytes_view(#[trigger] batch[i]) == flood_bytes(pkt_size),
    ensures
        payload_bytes(batch.take(packets as int)) == packets * pkt_size,
    decreases packets,
{
    if packets == 0 {
        assert(0 * pkt_size == 0);
    } else {
        let front = (packets - 1) as nat;
        lemma_flood_bytes_sum(batch, front, pkt_size);
        assert(batch.take(packets as int).drop_last() =~= batch.take(front as int));
        assert(bytes_view(batch[packets - 1]) == flood_bytes(pkt_size));
        assert(packets * pkt_size == front * pkt_size + pkt_size) by (nonlinear_arith)
            requires
                packets == front + 1,
        ;
    }
}

/// It does not matter how received datagrams are split into calls.
pub proof fn law_splitting_batches_changes_nothing(p: Seq<Bytes>, q: Seq<Bytes>)
    requires
        before_marker(p) == p.len(),
    ensures
        before_marker(p + q) == before_marker(p) + before_marker(q),
        payload_bytes((p + q).take(before_marker(p + q) as int)) == payload_bytes(p)
            + payload_bytes(q.take(before_marker(q) as int)),
{
    lemma_before_marker_bound(q, 0);
    lemma_before_marker_add(p, q);
    let n = before_marker(q) as int;
    assert((p + q).take(p.len() + n) =~= p + q.take(n));
    lemma_payload_bytes_add(p, q.take(n));
}

proof fn lemma_before_marker_add(p: Seq<Bytes>, q: Seq<Bytes>)
    requires
        before_marker(p) == p.len(),
    ensures
        before_marker(p + q) == p.len() + before_marker(q),
    decreases p.len(),
{
    if p.len() == 0 {
        assert(p + q =~= q);
    } else {
        assert((p + q).drop_first() =~= p.drop_first() + q);
        assert((p + q)[0] == p[0]);
        lemma_before_marker_add(p.drop_first(), q);
    }
}

pub proof fn lemma_payload_bytes_add(p: Seq<Bytes>, q: Seq<Bytes>)
    ensures
        payload_bytes(p + q) == payload_bytes(p) + payload_bytes(q),
    decreases q.len(),
{
    if q.len() == 0 {
        assert(p + q =~= p);
    } else {
        lemma_payload_bytes_add(p, q.drop_last());
        assert((p + q).drop_last() =~= p + q.drop_last());
    }
}

/// Each direction has its sender: `send` the client, `recv` the server, and `both` has both sides
/// do both.
pub proof fn law_direction_names_the_sender(role: Role, direction: Direction, p: Part)
    requires
        call_ensures(part, (role, direction), p),
    ensures
        p == Part::Both <==> direction == Direction::Both,
        p == Part::Sender <==> direction == Direction::Send && role == Role::Client || direction
            == Direction::Recv && role == Role::Server,
        p == Part::Receiver <==> direction == Direction::Send && role == Role::Server || direction
            == Direction::Recv && role == Role::Client,
        p == Part::of(role, direction),
{
}

/// Every flood comes to an end. A side that sends floods and then repeats the end marker; a side
/// that receives counts and then closes; no side does what its part is not; and the statistics come
/// last, exactly if they were asked for.
pub proof fn law_every_flood_comes_to_an_end(
    role: Role,
    direction: Direction,
    stats: bool,
    p: Part,
    steps: Vec<Step>,
)
    requires
        call_ensures(part, (role, direction), p),
        call_ensures(run_side, (role, direction, stats), steps),
    ensures
        ({
            let s = steps@;
            let sends = p == Part::Sender || p == Part::Both;
            let receives = p == Part::Receiver || p == Part::Both;
            &&& sends ==> exists|i: int, j: int|
                0 <= i < j < s.len() && #[trigger] s[i] == Step::Flood && (#[trigger] s[j]
                    == Step::SendDone || s[j] == Step::SpawnDone)
            &&& receives ==> exists|i: int, j: int|
                0 <= i < j < s.len() && (#[trigger] s[i] == Step::Receive || s[i]
                    == Step::SpawnReceive) && #[trigger] s[j] == Step::Close
            &&& s.contains(Step::Flood) <==> sends
            &&& s.contains(Step::Close) <==> receives
            &&& s.contains(Step::Receive) || s.contains(Step::SpawnReceive) <==> receives
            &&& s.contains(Step::PrintStats) <==> stats
            &&& stats ==> s.last() == Step::PrintStats
            &&& s.no_duplicates()
        }),
{
    let s = steps@;
    let base = script(role, direction);
    assert(forall|i: int| 0 <= i < base.len() ==> s[i] == base[i]);
    match p {
        Part::Sender => {
            assert(s[0] == Step::Flood && s[1] == Step::SendDone);
        },
        Part::Receiver => {
            assert(s[0] == Step::Receive && s[1] == Step::Close);
        },
        Part::Both => {
            assert(s[3] == Step::Flood && s[4] == Step::SpawnDone);
            assert(s[2] == Step::SpawnReceive && s[9] == Step::Close);
        },
    }
    if stats {
        assert(s[s.len() - 1] == Step::PrintStats);
    }
}

/// What a side does depends on its part alone: two sides with the same part do the same, but that
/// of two that flood at once, the client opens the coordination stream and writes on it first, and the
/// server accepts it and reads.
pub proof fn law_part_decides_what_a_side_does(
    a: Role,
    b: Role,
    da: Direction,
    db: Direction,
    stats: bool,
    p: Part,
    left: Vec<Step>,
    right: Vec<Step>,
    i: int,
)
    requires
        call_ensures(part, (a, da), p),
        call_ensures(part, (b, db), p),
        call_ensures(run_side, (a, da, stats), left),
        call_ensures(run_side, (b, db, stats), right),
    ensures
        p != Part::Both ==> left@ == right@,
        left@.len() == right@.len(),
        2 <= i < left@.len() ==> left@[i] == right@[i],
        p == Part::Both && a == Role::Client ==> left@[0] == Step::OpenStream && left@[1]
            == Step::WriteStart,
        p == Part::Both && a == Role::Server ==> left@[0] == Step::AcceptStream && left@[1]
            == Step::ReadStart,
{
}

/// A side that sends floods before it signals the end, and a side that receives closes at the end,
/// with nothing else to do. A side that does both counts while it floods, signals the end while it
/// counts, tells the peer that it has counted all before it hears the same, and closes after that.
pub proof fn law_steps_are_in_order(
    role: Role,
    direction: Direction,
    p: Part,
    steps: Vec<Step>,
    both: Vec<Step>,
)
    requires
        call_ensures(part, (role, direction), p),
        call_ensures(run_side, (role, direction, false), steps),
        call_ensures(run_both, (role,), both),
    ensures
        p == Part::Sender ==> steps@ == seq![Step::Flood, Step::SendDone],
        p == Part::Receiver ==> steps@ == seq![Step::Receive, Step::Close],
        p == Part::Both ==> steps@ == both@,
        both@.len() == 10,
        both@.skip(2) == seq![
            Step::SpawnReceive,
            Step::Flood,
            Step::SpawnDone,
            Step::JoinReceive,
            Step::WriteFinish,
            Step::ReadFinish,
            Step::AbortDone,
            Step::Close,
        ],
{
    assert(both@.skip(2) =~= seq![
        Step::SpawnReceive,
        Step::Flood,
        Step::SpawnDone,
        Step::JoinReceive,
        Step::WriteFinish,
        Step::ReadFinish,
        Step::AbortDone,
        Step::Close,
    ]);
}

/// Only the exchange of the finish bytes may fail.
pub proof fn law_only_the_finish_may_fail(step: Step, r: bool)
    requires
        call_ensures(Step::must_succeed, (step,), r),
    ensures
        !r <==> step == Step::WriteFinish || step == Step::ReadFinish,
{
}

/// Statistics are headed with the part.
pub proof fn law_statistics_are_headed_with_the_part(p: Part, text: &'static str)
    requires
        call_ensures(Part::label, (p,), text),
    ensures
        p == Part::Sender ==> text@ == "sender"@,
        p == Part::Receiver ==> text@ == "receiver"@,
        p == Part::Both ==> text@ == "both"@,
{
}

/// A plan sends packets of the size that was asked for, or of the largest that the connection takes
/// if that is smaller, and in batches of the size that was asked for, or one by one. There is none
/// exactly where the connection takes no datagrams, a packet would be empty, or batches would wait.
pub proof fn law_plan_does_what_was_asked(
    opt: &DatagramOpt,
    max_size: Option<usize>,
    r: Result<SendPlan, SendPlanError>,
    n: usize,
)
    requires
        call_ensures(send_plan, (opt, max_size), r),
        call_ensures(receive_slots, (opt,), n),
    ensures
        n == opt.batch_size || opt.batch_size == 0 && n == 1,
        n > 0,
        r == Err::<SendPlan, _>(SendPlanError::Unsupported) <==> max_size is None,
        r == Err::<SendPlan, _>(SendPlanError::EmptyPacket) <==> max_size is Some && (
        opt.packet_size == 0 || max_size->0 == 0),
        r == Err::<SendPlan, _>(SendPlanError::BatchWaits) <==> max_size is Some && opt.packet_size
            > 0 && max_size->0 > 0 && opt.batch_size > 1 && opt.send_mode == SendMode::Wait,
        r matches Ok(plan) ==> {
            &&& plan.pkt_size <= opt.packet_size
            &&& plan.pkt_size <= max_size->0
            &&& plan.pkt_size == opt.packet_size || plan.pkt_size == max_size->0
            &&& plan.batch_size == n
            &&& plan.mode == opt.send_mode
            &&& plan.total_bytes == opt.total_bytes
        },
{
}

/// A sender goes on until it has sent enough. One that waits sends at once; one that drops first
/// sees that the send buffer has space for the next call, and then makes it.
pub proof fn law_sender_goes_on_until_it_has_sent_enough(s: Sender, a: SendAction)
    requires
        s.wf(),
        call_ensures(Sender::action, (&s,), a),
    ensures
        a == SendAction::Finished <==> s.sent_bytes >= s.plan.total_bytes,
        a == SendAction::SendWaiting <==> s.sent_bytes < s.plan.total_bytes && s.plan.mode
            == SendMode::Wait,
        a is AwaitSpace <==> s.sent_bytes < s.plan.total_bytes && s.plan.mode == SendMode::Drop
            && !s.has_space,
        a matches SendAction::AwaitSpace { bytes } ==> bytes == s.plan.batch_size
            * s.plan.pkt_size,
        a == SendAction::Send ==> s.plan.batch_size == 1 && s.has_space,
        a == SendAction::SendMany ==> s.plan.batch_size > 1 && s.has_space,
{
}

/// Every call of a sender that drops is paced: after each there has to be space again for a whole
/// call, and what a call queued is counted, packets and bytes.
pub proof fn law_every_call_is_paced(
    seen: &mut Sender,
    space: usize,
    called: &mut Sender,
    queued: usize,
    after: SendAction,
)
    requires
        old(seen).wf(),
        old(called).wf(),
        call_ensures(Sender::space_found, (seen, space), ()),
        call_ensures(Sender::sent, (called, queued), ()),
        call_ensures(Sender::action, (&*final(called),), after),
    ensures
        final(seen).has_space <==> space >= old(seen).plan.batch_size * old(seen).plan.pkt_size,
        final(seen).sent_bytes == old(seen).sent_bytes,
        final(seen).sent_packets == old(seen).sent_packets,
        final(seen).plan == old(seen).plan,
        final(called).plan == old(called).plan,
        final(called).sent_packets == old(called).sent_packets + queued,
        final(called).sent_bytes == old(called).sent_bytes + queued * old(called).plan.pkt_size,
        after != SendAction::Send && after != SendAction::SendMany,
{
}

/// The end marker is sent after an interval has passed and at no other time, and until the peer has
/// closed or it cannot be sent.
pub proof fn law_marker_is_sent_at_intervals(event: DoneEvent, a: DoneAction)
    requires
        call_ensures(send_done_until_closed, (event,), a),
    ensures
        a == DoneAction::SendMarker <==> event == DoneEvent::IntervalElapsed,
        a == DoneAction::Stop <==> event == DoneEvent::Closed || event == DoneEvent::MarkerRefused,
        DONE_INTERVAL_MILLIS == 250,
{
}

/// Flood packets are as long as was asked for and alike; the end marker is one byte and unlike
/// them.
pub proof fn law_packets_and_marker_differ(
    n: usize,
    payload: Bytes,
    size: usize,
    batch: Vec<Bytes>,
    marker: Bytes,
    i: int,
    k: int,
)
    requires
        call_ensures(flood_payload, (n,), payload),
        call_ensures(flood_batch, (&payload, size), batch),
        call_ensures(done_datagram, (), marker),
        0 <= i < n,
        0 <= k < size,
    ensures
        bytes_view(payload).len() == n,
        bytes_view(payload)[i] == 0xAB,
        batch@.len() == size,
        bytes_view(batch@[k]) == bytes_view(payload),
        bytes_view(marker).len() == 1,
        bytes_view(marker)[0] == 0xFF,
        is_marker(marker),
        !is_marker(batch@[k]),
{
    law_flood_packet_is_no_marker(batch@[k], n as nat);
}

/// A datagram ends the flood exactly if it is the one byte of the marker.
pub proof fn law_only_the_marker_ends_a_flood(d: Bytes)
    ensures
        is_marker(d) <==> bytes_view(d).len() == 1 && bytes_view(d)[0] == 0xFF,
{
    if bytes_view(d).len() == 1 && bytes_view(d)[0] == 0xFF {
        assert(bytes_view(d) =~= seq![DONE_BYTE]);
    }
}

/// A receiver counts the datagrams before the first end marker, packets and bytes, and is done when
/// it has come.
pub proof fn law_receiver_counts_up_to_the_marker(
    r: &mut FloodReceiver,
    out: &Vec<Bytes>,
    n: usize,
    counted: usize,
    i: int,
)
    requires
        n <= out@.len(),
        call_ensures(FloodReceiver::recv_flood, (r, out, n), counted),
    ensures
        counted <= n,
        0 <= i < counted ==> !is_marker(out@[i]),
        counted < n ==> is_marker(out@[counted as int]) && final(r).done,
        counted == n ==> final(r).done == old(r).done,
        final(r).recv_packets == old(r).recv_packets + counted,
        final(r).recv_bytes == old(r).recv_bytes + payload_bytes(out@.take(counted as int)),
{
    let batch = out@.take(n as int);
    let k = lemma_first_marker(batch);
    if 0 <= i < counted {
        assert(batch[i] == out@[i]);
    }
    if counted < n {
        assert(batch[counted as int] == out@[counted as int]);
    }
}

proof fn lemma_first_marker(batch: Seq<Bytes>) -> (k: int)
    ensures
        0 <= k <= batch.len(),
        k == before_marker(batch),
        forall|i: int| 0 <= i < k ==> !is_marker(#[trigger] batch[i]),
        k < batch.len() ==> is_marker(batch[k]),
    decreases batch.len(),
{
    if batch.len() == 0 || is_marker(batch[0]) {
        0
    } else {
        let rest = batch.drop_first();
        let k = lemma_first_marker(rest) + 1;
        assert forall|i: int| 0 <= i < k implies !is_marker(#[trigger] batch[i]) by {
            if i > 0 {
                assert(batch[i] == rest[i - 1]);
            }
        }
        if k < batch.len() {
            assert(batch[k] == rest[k - 1]);
        }
        k
    }
}

/// The bytes of datagrams are those of each, counted once.
pub proof fn law_payload_bytes_are_the_sum(batch: Seq<Bytes>, d: Bytes)
    ensures
        payload_bytes(Seq::<Bytes>::empty()) == 0,
        payload_bytes(batch.push(d)) == payload_bytes(batch) + bytes_view(d).len(),
{
    assert(batch.push(d).drop_last() =~= batch);
}

/// What each side counts is reported as its own: a sender what it sent, a receiver what it
/// received.
pub proof fn law_sides_report_their_own(
    s: Sender,
    r: FloodReceiver,
    elapsed: Elapsed,
    sent: DatagramCounters,
    received: DatagramCounters,
)
    requires
        call_ensures(Sender::counters, (&s, elapsed), sent),
        call_ensures(FloodReceiver::counters, (&r, elapsed), received),
    ensures
        sent.sent_bytes == s.sent_bytes,
        sent.sent_packets == s.sent_packets,
        sent.send_elapsed == elapsed,
        sent.recv_bytes == 0,
        sent.recv_packets == 0,
        sent.recv_elapsed.total_nanos() == 0,
        received.recv_bytes == r.recv_bytes,
        received.recv_packets == r.recv_packets,
        received.recv_elapsed == elapsed,
        received.sent_bytes == 0,
        received.sent_packets == 0,
        received.send_elapsed.total_nanos() == 0,
{
    assert(sent@.recv_bytes == sent.recv_bytes);
    assert(received@.sent_bytes == received.sent_bytes);
}

} // verus!
