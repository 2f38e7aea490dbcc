//! The datagram queues of a connection.

use std::collections::VecDeque;

use bytes::Bytes;
use vstd::prelude::*;

use crate::frame::{Datagram, FrameStats, PacketBuilder, SIZE_BOUND};
use crate::payload::bytes_view;

verus! {

/// The largest payload a datagram queued for sending can have, a UDP payload being at most that
/// long.
pub const MAX_PAYLOAD: usize = 65535;

/// The number of payload bytes in a queue.
pub open spec fn total_len(q: Seq<Datagram>) -> nat
    decreases q.len(),
{
    if q.len() == 0 {
        0
    } else {
        total_len(q.drop_last()) + q.last().len()
    }
}

/// What is left of a queue once its oldest entries have been discarded, one by one, until the
/// rest holds at most `budget` bytes.
pub open spec fn keep_newest(q: Seq<Datagram>, budget: int) -> Seq<Datagram>
    decreases q.len(),
{
    if q.len() == 0 || total_len(q) <= budget {
        q
    } else {
        keep_newest(q.drop_first(), budget)
    }
}

/// How many bytes may be queued before a datagram of `len` bytes for both to be within `budget`. For
/// a datagram that exceeds the budget by itself no space can be made, so what is within the budget
/// may stay.
pub open spec fn room_for(len: nat, budget: nat) -> int {
    if len <= budget {
        budget - len
    } else {
        budget as int
    }
}

/// The payloads of a queue, oldest first.
pub open spec fn payloads(q: Seq<Datagram>) -> Seq<Bytes> {
    q.map_values(|d: Datagram| d.data)
}

pub proof fn lemma_total_len_push(q: Seq<Datagram>, d: Datagram)
    ensures
        total_len(q.push(d)) == total_len(q) + d.len(),
{
    assert(q.push(d).drop_last() =~= q);
}

pub proof fn lemma_total_len_front(q: Seq<Datagram>)
    requires
        q.len() > 0,
    ensures
        total_len(q) == q[0].len() + total_len(q.drop_first()),
    decreases q.len(),
{
    if q.len() == 1 {
        assert(q.drop_last() =~= Seq::<Datagram>::empty());
        assert(q.drop_first() =~= Seq::<Datagram>::empty());
    } else {
        lemma_total_len_front(q.drop_last());
        assert(q.drop_last().drop_first() =~= q.drop_first().drop_last());
    }
}

pub proof fn lemma_total_len_add(p: Seq<Datagram>, q: Seq<Datagram>)
    ensures
        total_len(p + q) == total_len(p) + total_len(q),
    decreases q.len(),
{
    if q.len() == 0 {
        assert(p + q =~= p);
    } else {
        lemma_total_len_add(p, q.drop_last());
        assert((p + q).drop_last() =~= p + q.drop_last());
    }
}

/// Received datagrams that the application has not taken yet, and datagrams waiting to be sent.
pub struct DatagramState {
    /// Number of bytes of datagrams that have been received by the local transport but not
    /// delivered to the application
    pub recv_buffered: usize,
    /// Datagrams received and not yet delivered, oldest first
    pub incoming: VecDeque<Datagram>,
    /// Datagrams waiting to be sent, oldest first
    pub outgoing: VecDeque<Datagram>,
    /// Number of bytes of datagrams waiting to be sent
    pub outgoing_total: usize,
    /// Whether a send was refused for want of buffer space
    pub send_blocked: bool,
}

/// An error that ends the connection.
#[derive(Debug, Clone, PartialEq, Eq)]
pub enum TransportError {
    /// The peer broke a rule of the protocol.
    ProtocolViolation { reason: &'static str },
}

impl DatagramState {
    /// The byte counters agree with the queues, and every datagram waiting to be sent fits a UDP
    /// payload.
    pub open spec fn wf(self) -> bool {
        &&& self.recv_buffered == total_len(self.incoming@)
        &&& self.outgoing_total == total_len(self.outgoing@)
        &&& forall|i: int|
            0 <= i < self.outgoing@.len() ==> (#[trigger] self.outgoing@[i]).len() <= MAX_PAYLOAD
    }

    /// Whether the receiving half is the same in both.
    pub open spec fn same_incoming(self, other: Self) -> bool {
        &&& self.incoming@ == other.incoming@
        &&& self.recv_buffered == other.recv_buffered
    }

    /// Whether the sending half is the same in both.
    pub open spec fn same_outgoing(self, other: Self) -> bool {
        &&& self.outgoing@ == other.outgoing@
        &&& self.outgoing_total == other.outgoing_total
        &&& self.send_blocked == other.send_blocked
    }

    /// Buffers a datagram received from the peer, discarding the oldest ones that have not been
    /// delivered as far as the `window` requires. Returns whether no bytes were buffered before.
    pub fn received(&mut self, datagram: Datagram, window: &Option<usize>) -> (r: Result<
        bool,
        TransportError,
    >)
        requires
            old(self).wf(),
        ensures
            final(self).wf(),
            final(self).same_outgoing(*old(self)),
            match *window {
                None => {
                    &&& r == Err::<bool, _>(
                        TransportError::ProtocolViolation { reason: "unexpected DATAGRAM frame" },
                    )
                    &&& final(self).same_incoming(*old(self))
                },
                Some(w) => if datagram.len() > w {
                    &&& r == Err::<bool, _>(
                        TransportError::ProtocolViolation { reason: "oversized datagram" },
                    )
                    &&& final(self).same_incoming(*old(self))
                } else {
                    &&& r == Ok::<_, TransportError>(total_len(old(self).incoming@) == 0)
                    &&& final(self).incoming@ == keep_newest(
                        old(self).incoming@,
                        w - datagram.len(),
                    ).push(datagram)
                    &&& final(self).recv_buffered <= w
                },
            },
    {
        let window: usize = match window {
            None => {
                return Err(
                    TransportError::ProtocolViolation { reason: "unexpected DATAGRAM frame" },
                );
            },
            Some(x) => *x,
        };

        let len: usize = datagram.data.len();
        if len > window {
            return Err(TransportError::ProtocolViolation { reason: "oversized datagram" });
        }
        let was_empty = self.recv_buffered == 0;
        while self.recv_buffered > window - len
            invariant
                len == datagram.len(),
                len <= window,
                self.wf(),
                self.same_outgoing(*old(self)),
                keep_newest(self.incoming@, window - len) == keep_newest(
                    old(self).incoming@,
                    window - len,
                ),
            decreases self.incoming@.len(),
        {
            self.recv();
        }

        proof {
            lemma_total_len_push(self.incoming@, datagram);
        }
        self.recv_buffered += len;
        self.incoming.push_back(datagram);
        Ok(was_empty)
    }

    /// Takes the oldest received datagram.
    pub fn recv(&mut self) -> (r: Option<Bytes>)
        requires
            old(self).wf(),
        ensures
            final(self).wf(),
            final(self).same_outgoing(*old(self)),
            r is None <==> old(self).incoming@.len() == 0,
            match r {
                None => final(self).incoming@ == old(self).incoming@,
                Some(data) => {
                    &&& data == old(self).incoming@[0].data
                    &&& final(self).incoming@ == old(self).incoming@.drop_first()
                },
            },
    {
        match self.incoming.pop_front() {
            None => None,
            Some(datagram) => {
                proof {
                    lemma_total_len_front(old(self).incoming@);
                    assert(self.incoming@ =~= old(self).incoming@.drop_first());
                }
                let x = datagram.data;
                self.recv_buffered -= x.len();
                Some(x)
            },
        }
    }

    /// Moves the `limit` oldest received datagrams, or all if there are fewer, to the end of
    /// `out`, in arrival order. Returns how many that was.
    pub fn recv_up_to(&mut self, out: &mut Vec<Bytes>, limit: usize) -> (n: usize)
        requires
            old(self).wf(),
        ensures
            final(self).wf(),
            final(self).same_outgoing(*old(self)),
            n == if old(self).incoming@.len() < limit {
                old(self).incoming@.len()
            } else {
                limit as nat
            },
            final(out)@ == old(out)@ + payloads(old(self).incoming@.take(n as int)),
            final(self).incoming@ == old(self).incoming@.skip(n as int),
    {
        let buffered: usize = self.incoming.len();
        let n: usize = if buffered < limit {
            buffered
        } else {
            limit
        };
        if n == 0 {
            assert(payloads(old(self).incoming@.take(0)) =~= Seq::<Bytes>::empty());
            assert(self.incoming@ =~= old(self).incoming@.skip(0));
            return 0;
        }
        out.reserve(n);
        let mut taken: usize = 0;
        while taken < n
            invariant
                taken <= n <= old(self).incoming@.len(),
                self.wf(),
                self.same_outgoing(*old(self)),
                out@ =~= old(out)@ + payloads(old(self).incoming@.take(taken as int)),
                self.incoming@ =~= old(self).incoming@.skip(taken as int),
            decreases n - taken,
        {
            if let Some(data) = self.recv() {
                out.push(data);
            }
            taken += 1;
        }
        n
    }

    /// Moves all received datagrams to the end of `out`, in arrival order. Returns how many that
    /// was.
    pub fn recv_many(&mut self, out: &mut Vec<Bytes>) -> (n: usize)
        requires
            old(self).wf(),
        ensures
            final(self).wf(),
            final(self).same_outgoing(*old(self)),
            n == old(self).incoming@.len(),
            final(out)@ == old(out)@ + payloads(old(self).incoming@),
            final(self).incoming@ == Seq::<Datagram>::empty(),
    {
        let n: usize = self.incoming.len();
        let n: usize = self.recv_up_to(out, n);
        assert(old(self).incoming@.take(n as int) =~= old(self).incoming@);
        n
    }

    /// Discards outgoing datagrams with a payload larger than `max_payload` bytes.
    ///
    /// Returns whether any datagrams were dropped.
    ///
    /// Used to ensure that reductions in MTU don't get us stuck in a state where we have a
    /// datagram queued but can't send it.
    pub fn drop_oversized(&mut self, max_payload: usize) -> (dropped_any: bool)
        requires
            old(self).wf(),
        ensures
            final(self).wf(),
            final(self).same_incoming(*old(self)),
            final(self).send_blocked == old(self).send_blocked,
            final(self).outgoing@ == old(self).outgoing@.filter(
                |d: Datagram| d.len() <= max_payload,
            ),
            dropped_any == exists|i: int|
                0 <= i < old(self).outgoing@.len() && (#[trigger] old(self).outgoing@[i]).len()
                    > max_payload,
    {
        let ghost q = old(self).outgoing@;
        let ghost keep = |d: Datagram| d.len() <= max_payload;
        let n: usize = self.outgoing.len();
        let mut seen: usize = 0;
        let mut dropped_any = false;
        assert(q.take(0).filter(keep) =~= Seq::<Datagram>::empty()) by {
            reveal(Seq::filter);
        }
        while seen < n
            invariant
                n == q.len(),
                q == old(self).outgoing@,
                keep == (|d: Datagram| d.len() <= max_payload),
                seen <= n,
                self.wf(),
                self.same_incoming(*old(self)),
                self.send_blocked == old(self).send_blocked,
                self.outgoing@ =~= q.skip(seen as int) + q.take(seen as int).filter(keep),
                dropped_any == exists|i: int|
                    0 <= i < seen && (#[trigger] q[i]).len() > max_payload,
            decreases n - seen,
        {
            let ghost before = self.outgoing@;
            assert(before[0] == q[seen as int]);
            assert(q.take(seen + 1) =~= q.take(seen as int).push(q[seen as int]));
            proof {
                q.take(seen as int).lemma_filter_push(q[seen as int], keep);
                lemma_total_len_front(before);
            }
            if let Some(datagram) = self.outgoing.pop_front() {
                let len: usize = datagram.data.len();
                assert(self.outgoing@ =~= before.drop_first());
                if len <= max_payload {
                    proof {
                        lemma_total_len_push(self.outgoing@, datagram);
                    }
                    self.outgoing.push_back(datagram);
                } else {
                    self.outgoing_total -= len;
                    dropped_any = true;
                }
            }
            seen += 1;
        }
        assert(q.take(n as int) =~= q);
        assert(q.skip(n as int) =~= Seq::<Datagram>::empty());
        dropped_any
    }

    /// Writes the oldest datagram waiting to be sent as a frame into `buf`, if it fits what is
    /// left of the packet.
    ///
    /// Returns whether a frame was written.
    pub fn write(&mut self, buf: &mut PacketBuilder, stat: &mut FrameStats) -> (written: bool)
        requires
            old(self).wf(),
            old(stat).datagram < u64::MAX,
        ensures
            final(self).wf(),
            final(self).same_incoming(*old(self)),
            final(self).send_blocked == old(self).send_blocked,
            final(buf).limit == old(buf).limit,
            written <==> old(self).outgoing@.len() > 0 && old(self).outgoing@[0].encoded(
                true,
            ).len() <= old(buf).space(),
            if written {
                &&& final(self).outgoing@ == old(self).outgoing@.drop_first()
                &&& final(buf).buf@ == old(buf).buf@ + old(self).outgoing@[0].encoded(true)
                &&& final(stat).datagram == old(stat).datagram + 1
            } else {
                &&& final(self).outgoing@ == old(self).outgoing@
                &&& final(buf).buf@ == old(buf).buf@
                &&& final(stat).datagram == old(stat).datagram
            },
    {
        let ghost q = self.outgoing@;
        let datagram = match self.outgoing.pop_front() {
            None => {
                return false;
            },
            Some(datagram) => datagram,
        };
        assert(datagram == q[0]);

        if buf.frame_space_remaining() < datagram.size(true) {
            self.outgoing.push_front(datagram);
            assert(self.outgoing@ =~= q);
            return false;
        }
        proof {
            lemma_total_len_front(q);
            assert(self.outgoing@ =~= q.drop_first());
        }
        self.outgoing_total -= datagram.data.len();
        buf.write_frame(datagram, stat);
        true
    }
}

impl Default for DatagramState {
    /// No datagram received, none to send.
    fn default() -> (s: Self)
        ensures
            s.wf(),
            s.incoming@ == Seq::<Datagram>::empty(),
            s.outgoing@ == Seq::<Datagram>::empty(),
            !s.send_blocked,
    {
        DatagramState {
            recv_buffered: 0,
            incoming: VecDeque::new(),
            outgoing: VecDeque::new(),
            outgoing_total: 0,
            send_blocked: false,
        }
    }
}

/// The local settings that concern datagrams.
pub struct TransportConfig {
    /// How many bytes of received datagrams are buffered; `None` disables datagrams
    pub datagram_receive_buffer_size: Option<usize>,
    /// How many bytes of datagrams may wait to be sent
    pub datagram_send_buffer_size: usize,
}

/// The transport parameters of the peer that concern datagrams.
pub struct PeerParams {
    /// The largest DATAGRAM frame the peer takes; `None` if it takes none
    pub max_datagram_frame_size: Option<u64>,
}

/// The part of a connection that datagrams depend on.
pub struct Connection {
    pub config: TransportConfig,
    pub peer_params: PeerParams,
    /// The smallest MTU across all available paths
    pub current_mtu: u16,
    /// A bound on what a 1-RTT packet adds around its frames, for any packet number
    pub one_rtt_overhead: usize,
    pub datagrams: DatagramState,
}

impl Connection {
    /// Whether datagrams can be sent at all: the local side has not disabled them and the peer
    /// takes them.
    pub open spec fn datagrams_enabled(self) -> bool {
        self.config.datagram_receive_buffer_size is Some
            && self.peer_params.max_datagram_frame_size is Some
    }

    /// The queues are consistent, and a packet has room for a DATAGRAM frame.
    pub open spec fn wf(self) -> bool {
        &&& self.datagrams.wf()
        &&& self.datagrams_enabled() ==> self.one_rtt_overhead + SIZE_BOUND <= self.current_mtu
    }

    /// The largest datagram that the peer and the path take, if datagrams can be sent.
    pub open spec fn max_datagram_size(self) -> Option<nat> {
        if self.datagrams_enabled() {
            let limit = self.peer_params.max_datagram_frame_size->0 as int - SIZE_BOUND;
            let path = self.current_mtu as int - self.one_rtt_overhead - SIZE_BOUND;
            Some(
                (if limit < 0 {
                    0
                } else if limit < path {
                    limit
                } else {
                    path
                }) as nat,
            )
        } else {
            None
        }
    }

    /// Whether a datagram of `len` bytes fits a packet on the path and the limit of the peer.
    pub open spec fn can_carry(self, len: nat) -> bool {
        &&& self.one_rtt_overhead + SIZE_BOUND + len <= self.current_mtu
        &&& len == 0 || SIZE_BOUND + len <= self.peer_params.max_datagram_frame_size->0
    }

    /// How much of the send buffer is free.
    pub open spec fn buffer_space(self) -> nat {
        let budget = self.config.datagram_send_buffer_size;
        if budget <= self.datagrams.outgoing_total {
            0
        } else {
            (budget - self.datagrams.outgoing_total) as nat
        }
    }

    /// Whether everything but the datagram queues is the same in both.
    pub open spec fn same_settings(self, other: Self) -> bool {
        &&& self.config == other.config
        &&& self.peer_params == other.peer_params
        &&& self.current_mtu == other.current_mtu
        &&& self.one_rtt_overhead == other.one_rtt_overhead
    }

    /// The datagrams interface of the connection.
    pub fn datagrams(&mut self) -> (d: Datagrams<'_>)
        ensures
            d.state() == *old(self),
            *final(d.conn) == *final(self),
    {
        Datagrams { conn: self }
    }
}

/// Errors that can arise when sending a datagram
#[derive(Debug, Clone, PartialEq, Eq, PartialOrd, Ord, Hash)]
pub enum SendDatagramError {
    /// The peer does not support receiving datagram frames
    UnsupportedByPeer,
    /// Datagram support is disabled locally
    Disabled,
    /// The datagram is larger than the connection can currently accommodate
    ///
    /// Indicates that the path MTU minus overhead or the limit advertised by the peer has been
    /// exceeded.
    TooLarge,
    /// Send would block
    Blocked(Bytes),
}

impl SendDatagramError {
    /// The error in words.
    pub fn message(&self) -> (text: &'static str)
        ensures
            text@ == match *self {
                SendDatagramError::UnsupportedByPeer => "datagrams not supported by peer"@,
                SendDatagramError::Disabled => "datagram support disabled"@,
                SendDatagramError::TooLarge => "datagram too large"@,
                SendDatagramError::Blocked(_) => "datagram send blocked"@,
            },
    {
        match self {
            SendDatagramError::UnsupportedByPeer => "datagrams not supported by peer",
            SendDatagramError::Disabled => "datagram support disabled",
            SendDatagramError::TooLarge => "datagram too large",
            SendDatagramError::Blocked(_) => "datagram send blocked",
        }
    }
}

/// `Vec::capacity`: how many elements the vector can hold without reallocating, which is no fewer
/// than it holds. How many more is up to the allocator and left unsaid.
#[verifier::external_body]
fn capacity(v: &Vec<Bytes>) -> (c: usize)
    ensures
        c >= v@.len(),
{
    v.capacity()
}

/// Whether `c` is what asking for the capacity of `v` can give.
pub closed spec fn reports_capacity(v: Vec<Bytes>, c: usize) -> bool {
    call_ensures(capacity, (&v,), c)
}

/// Only a call of `capacity` can tell, and it tells of no less than the vector holds.
proof fn lemma_reports_capacity(v: Vec<Bytes>, c: usize)
    ensures
        reports_capacity(v, c) == call_ensures(capacity, (&v,), c),
        reports_capacity(v, c) ==> c >= v@.len(),
{
}

/// What `f` gives for `v`.
fn ask<F: Fn(&Vec<Bytes>) -> usize>(f: F, v: &Vec<Bytes>) -> (c: usize)
    requires
        call_requires(f, (v,)),
    ensures
        call_ensures(f, (v,), c),
{
    f(v)
}

/// API to control datagram traffic
pub struct Datagrams<'a> {
    pub conn: &'a mut Connection,
}

/// The payloads of a batch that are no larger than `max`, as datagrams, in order.
pub open spec fn accepted(batch: Seq<Bytes>, max: nat) -> Seq<Datagram> {
    batch.filter(|b: Bytes| bytes_view(b).len() <= max).map_values(|b: Bytes| Datagram { data: b })
}

pub proof fn lemma_accepted_push(batch: Seq<Bytes>, b: Bytes, max: nat)
    ensures
        accepted(batch.push(b), max) == if bytes_view(b).len() <= max {
            accepted(batch, max).push(Datagram { data: b })
        } else {
            accepted(batch, max)
        },
{
    let fits = |b: Bytes| bytes_view(b).len() <= max;
    batch.lemma_filter_push(b, fits);
    assert(accepted(batch.push(b), max) =~= if fits(b) {
        accepted(batch, max).push(Datagram { data: b })
    } else {
        accepted(batch, max)
    });
}

pub proof fn lemma_accepted_add(p: Seq<Bytes>, q: Seq<Bytes>, max: nat)
    ensures
        accepted(p + q, max) == accepted(p, max) + accepted(q, max),
        accepted(p, max).len() <= p.len(),
{
    let fits = |b: Bytes| bytes_view(b).len() <= max;
    Seq::filter_distributes_over_add(p, q, fits);
    p.lemma_filter_len(fits);
    assert(accepted(p + q, max) =~= accepted(p, max) + accepted(q, max));
}

impl<'a> Datagrams<'a> {
    /// The connection as it stands.
    pub open spec fn state(&self) -> Connection {
        *self.conn
    }

    /// Queue an unreliable, unordered datagram for immediate transmission
    ///
    /// If `drop` is true, previously queued datagrams which are still unsent are discarded to make
    /// space for this datagram, in order of oldest to newest and as far as needed: the queue is then
    /// within the send buffer budget. A datagram that exceeds the budget alone is queued after what
    /// is within it. If `drop` is false, and there isn't enough space due to previously queued
    /// datagrams, this function will return `SendDatagramError::Blocked`.
    ///
    /// Returns `Err` iff a `len`-byte datagram cannot currently be sent.
    pub fn send(&mut self, data: Bytes, drop: bool) -> (r: Result<(), SendDatagramError>)
        requires
            old(self).state().wf(),
        ensures
            final(self).state().wf(),
            final(self).state().same_settings(old(self).state()),
            final(self).state().datagrams.same_incoming(old(self).state().datagrams),
            *final(final(self).conn) == *final(old(self).conn),
            ({
                let c = old(self).state();
                let before = c.datagrams;
                let after = final(self).state().datagrams;
                let budget = c.config.datagram_send_buffer_size;
                if c.config.datagram_receive_buffer_size is None {
                    &&& r == Err::<(), _>(SendDatagramError::Disabled)
                    &&& after.same_outgoing(before)
                } else if c.peer_params.max_datagram_frame_size is None {
                    &&& r == Err::<(), _>(SendDatagramError::UnsupportedByPeer)
                    &&& after.same_outgoing(before)
                } else if bytes_view(data).len() > c.max_datagram_size()->0 {
                    &&& r == Err::<(), _>(SendDatagramError::TooLarge)
                    &&& after.same_outgoing(before)
                } else if !drop && before.outgoing_total + bytes_view(data).len() > budget {
                    &&& r == Err::<(), _>(SendDatagramError::Blocked(data))
                    &&& after.outgoing@ == before.outgoing@
                    &&& after.send_blocked
                } else {
                    &&& r is Ok
                    &&& after.outgoing@ == (if drop {
                        keep_newest(
                            before.outgoing@,
                            room_for(bytes_view(data).len(), budget as nat),
                        )
                    } else {
                        before.outgoing@
                    }).push(Datagram { data })
                    &&& bytes_view(data).len() <= budget ==> after.outgoing_total <= budget
                    &&& after.send_blocked == before.send_blocked
                }
            }),
    {
        if self.conn.config.datagram_receive_buffer_size.is_none() {
            return Err(SendDatagramError::Disabled);
        }
        let max: usize = match self.max_size() {
            None => {
                return Err(SendDatagramError::UnsupportedByPeer);
            },
            Some(max) => max,
        };
        let len: usize = data.len();
        if len > max {
            return Err(SendDatagramError::TooLarge);
        }
        let budget: usize = self.conn.config.datagram_send_buffer_size;
        if drop {
            // No space can be made for a datagram that exceeds the budget alone.
            self.drop_oldest(if len <= budget { budget - len } else { budget });
        } else if len > budget || self.conn.datagrams.outgoing_total > budget - len {
            self.conn.datagrams.send_blocked = true;
            return Err(SendDatagramError::Blocked(data));
        }
        proof {
            lemma_total_len_push(self.conn.datagrams.outgoing@, Datagram { data });
        }
        self.conn.datagrams.outgoing_total += len;
        self.conn.datagrams.outgoing.push_back(Datagram { data });
        Ok(())
    }

    /// Discards the oldest queued datagrams until the queue holds at most `room` bytes.
    fn drop_oldest(&mut self, room: usize)
        requires
            old(self).state().wf(),
        ensures
            final(self).state().wf(),
            final(self).state().same_settings(old(self).state()),
            final(self).state().datagrams.same_incoming(old(self).state().datagrams),
            final(self).state().datagrams.send_blocked == old(
                self,
            ).state().datagrams.send_blocked,
            final(self).state().datagrams.outgoing@ == keep_newest(
                old(self).state().datagrams.outgoing@,
                room as int,
            ),
            final(self).state().datagrams.outgoing_total <= room,
            *final(final(self).conn) == *final(old(self).conn),
    {
        while self.conn.datagrams.outgoing_total > room
            invariant
                self.state().wf(),
                self.state().same_settings(old(self).state()),
                self.state().datagrams.same_incoming(old(self).state().datagrams),
                self.state().datagrams.send_blocked == old(self).state().datagrams.send_blocked,
                keep_newest(self.state().datagrams.outgoing@, room as int) == keep_newest(
                    old(self).state().datagrams.outgoing@,
                    room as int,
                ),
                *final(self.conn) == *final(old(self).conn),
            decreases self.state().datagrams.outgoing@.len(),
        {
            let ghost q = self.state().datagrams.outgoing@;
            if let Some(prev) = self.conn.datagrams.outgoing.pop_front() {
                proof {
                    lemma_total_len_front(q);
                    assert(self.state().datagrams.outgoing@ =~= q.drop_first());
                }
                self.conn.datagrams.outgoing_total -= prev.data.len();
            }
        }
    }

    /// Compute the maximum size of datagrams that may be passed to `send`
    ///
    /// Returns `None` if datagrams are unsupported by the peer or disabled locally.
    ///
    /// This may change over the lifetime of a connection according to variation in the path MTU
    /// estimate. The peer can also enforce an arbitrarily small fixed limit, but if the peer's
    /// limit is large this is guaranteed to be a little over a kilobyte at minimum.
    ///
    /// Not necessarily the maximum size of received datagrams.
    ///
    /// When multipath is enabled, this is calculated using the smallest MTU across all
    /// available paths.
    pub fn max_size(&self) -> (r: Option<usize>)
        requires
            self.state().wf(),
        ensures
            match r {
                None => self.state().max_datagram_size() is None,
                Some(n) => self.state().max_datagram_size() == Some(n as nat),
            },
    {
        if self.conn.config.datagram_receive_buffer_size.is_none() {
            return None;
        }
        match self.conn.peer_params.max_datagram_frame_size {
            None => None,
            Some(frame_size) => {
                // We use the conservative overhead bound for any packet number, so that packet
                // number size fluctuations don't cause users sending maximum-size datagrams to
                // suffer avoidable packet loss.
                let path: usize = self.conn.current_mtu as usize - self.conn.one_rtt_overhead
                    - SIZE_BOUND;
                let limit: u64 = frame_size.saturating_sub(SIZE_BOUND as u64);
                if limit < path as u64 {
                    Some(limit as usize)
                } else {
                    Some(path)
                }
            },
        }
    }

    /// Whether the byte count of the queue stays representable when those payloads of `batch`
    /// that are not too large are queued.
    pub open spec fn send_many_fits(&self, batch: Seq<Bytes>) -> bool {
        let c = self.state();
        c.max_datagram_size() is Some ==> total_len(c.datagrams.outgoing@) + total_len(
            accepted(batch, c.max_datagram_size()->0),
        ) <= usize::MAX
    }

    /// Queue many unreliable, unordered datagrams for transmission in a single call.
    ///
    /// This is the batch analogue of [`send`](Self::send) with `drop = true`. Semantics match
    /// calling `send(data, true)` for each element in order, with two differences:
    ///
    /// - the peer-support / disabled / `max_size` checks are performed once, up front, using the
    ///   current MTU;
    /// - drop-oldest-to-make-space is applied once after enqueueing the whole batch rather than
    ///   per element.
    ///
    /// Returns `Ok(n)` where `n` is the number of datagrams actually queued (may be less than the
    /// batch holds if an individual datagram exceeded `max_size` and was skipped). Returns `Err`
    /// iff datagrams are unsupported/disabled, or if there are datagrams in the batch and *all*
    /// of them are larger than the current max size.
    pub fn send_many(&mut self, datagrams: Vec<Bytes>) -> (r: Result<usize, SendDatagramError>)
        requires
            old(self).state().wf(),
            old(self).send_many_fits(datagrams@),
        ensures
            final(self).state().wf(),
            final(self).state().same_settings(old(self).state()),
            final(self).state().datagrams.same_incoming(old(self).state().datagrams),
            *final(final(self).conn) == *final(old(self).conn),
            ({
                let c = old(self).state();
                let before = c.datagrams;
                let after = final(self).state().datagrams;
                let fresh = accepted(datagrams@, c.max_datagram_size()->0);
                if c.config.datagram_receive_buffer_size is None {
                    &&& r == Err::<usize, _>(SendDatagramError::Disabled)
                    &&& after.same_outgoing(before)
                } else if c.peer_params.max_datagram_frame_size is None {
                    &&& r == Err::<usize, _>(SendDatagramError::UnsupportedByPeer)
                    &&& after.same_outgoing(before)
                } else if datagrams@.len() > 0 && fresh.len() == 0 {
                    &&& r == Err::<usize, _>(SendDatagramError::TooLarge)
                    &&& after.same_outgoing(before)
                } else {
                    &&& r == Ok::<_, SendDatagramError>(fresh.len() as usize)
                    &&& fresh.len() <= datagrams@.len()
                    &&& after.outgoing@ == keep_newest(
                        before.outgoing@ + fresh,
                        c.config.datagram_send_buffer_size as int,
                    )
                    &&& after.outgoing_total <= c.config.datagram_send_buffer_size
                    &&& after.send_blocked == before.send_blocked
                }
            }),
    {
        if self.conn.config.datagram_receive_buffer_size.is_none() {
            return Err(SendDatagramError::Disabled);
        }
        let max: usize = match self.max_size() {
            None => {
                return Err(SendDatagramError::UnsupportedByPeer);
            },
            Some(max) => max,
        };

        let ghost q = old(self).state().datagrams.outgoing@;
        let ghost batch = datagrams@;
        let count: usize = datagrams.len();
        let mut queued: usize = 0;
        proof {
            reveal(Seq::filter);
            assert(accepted(batch.take(0), max as nat) =~= Seq::<Datagram>::empty());
        }
        for data in it: datagrams
            invariant
                it.seq() == batch,
                count == batch.len(),
                q == old(self).state().datagrams.outgoing@,
                max <= MAX_PAYLOAD,
                total_len(q) + total_len(accepted(batch, max as nat)) <= usize::MAX,
                self.state().wf(),
                self.state().same_settings(old(self).state()),
                self.state().datagrams.same_incoming(old(self).state().datagrams),
                self.state().datagrams.send_blocked == old(self).state().datagrams.send_blocked,
                self.state().datagrams.outgoing@ =~= q + accepted(
                    batch.take(it.index()),
                    max as nat,
                ),
                queued == accepted(batch.take(it.index()), max as nat).len(),
                queued <= it.index(),
                *final(self.conn) == *final(old(self).conn),
        {
            let ghost i = it.index();
            let ghost now = self.state().datagrams.outgoing@;
            proof {
                let seen = batch.take(i);
                let rest = batch.skip(i + 1);
                assert(batch.take(i + 1) =~= seen.push(data));
                assert(batch =~= seen.push(data) + rest);
                lemma_accepted_push(seen, data, max as nat);
                lemma_accepted_add(seen.push(data), rest, max as nat);
                lemma_total_len_add(accepted(seen.push(data), max as nat), accepted(rest, max as nat));
                lemma_total_len_add(q, accepted(seen, max as nat));
                lemma_total_len_push(accepted(seen, max as nat), Datagram { data });
                lemma_total_len_push(now, Datagram { data });
            }
            let len: usize = data.len();
            if len <= max {
                self.conn.datagrams.outgoing_total += len;
                self.conn.datagrams.outgoing.push_back(Datagram { data });
                queued += 1;
            }
        }

        proof {
            assert(batch.take(batch.len() as int) =~= batch);
            lemma_accepted_add(batch, Seq::empty(), max as nat);
        }
        if queued == 0 && count > 0 {
            // The batch was non-empty but every element was too large.
            return Err(SendDatagramError::TooLarge);
        }
        // Applied once for the whole batch.
        self.drop_oldest(self.conn.config.datagram_send_buffer_size);
        Ok(queued)
    }

    /// Receive an unreliable, unordered datagram
    pub fn recv(&mut self) -> (r: Option<Bytes>)
        requires
            old(self).state().wf(),
        ensures
            final(self).state().wf(),
            final(self).state().same_settings(old(self).state()),
            final(self).state().datagrams.same_outgoing(old(self).state().datagrams),
            *final(final(self).conn) == *final(old(self).conn),
            ({
                let before = old(self).state().datagrams.incoming@;
                let after = final(self).state().datagrams.incoming@;
                match r {
                    None => before.len() == 0 && after == before,
                    Some(data) => {
                        &&& before.len() > 0
                        &&& data == before[0].data
                        &&& after == before.drop_first()
                    },
                }
            }),
    {
        self.conn.datagrams.recv()
    }

    /// Drain up to `out.capacity()` buffered datagrams into `out`, in arrival order.
    ///
    /// This is the batch analogue of [`recv`](Self::recv): a single call drains many datagrams,
    /// so a caller holding the connection lock once can forward a batch without re-acquiring it
    /// per datagram. Returns the number of datagrams appended.
    ///
    /// `out` is not cleared; datagrams are appended to whatever is present. Pass an empty `Vec`
    /// with a reserved capacity matching your batch budget for the common case.
    ///
    /// How much a vector has reserved is up to its allocator: the number is that of the buffered
    /// datagrams, or what asking for the capacity of `out` gave if that is smaller.
    pub fn recv_many(&mut self, out: &mut Vec<Bytes>) -> (n: usize)
        requires
            old(self).state().wf(),
        ensures
            final(self).state().wf(),
            final(self).state().same_settings(old(self).state()),
            final(self).state().datagrams.same_outgoing(old(self).state().datagrams),
            *final(final(self).conn) == *final(old(self).conn),
            ({
                let before = old(self).state().datagrams.incoming@;
                let after = final(self).state().datagrams.incoming@;
                &&& n <= before.len()
                &&& n < before.len() ==> n >= old(out)@.len()
                &&& exists|c: usize| #[trigger]
                    reports_capacity(*old(out), c) && n == if before.len() < c {
                        before.len()
                    } else {
                        c as nat
                    }
                &&& final(out)@ == old(out)@ + payloads(before.take(n as int))
                &&& after == before.skip(n as int)
            }),
    {
        let limit: usize = ask(capacity, out);
        assert(reports_capacity(*old(out), limit));
        self.conn.datagrams.recv_up_to(out, limit)
    }

    /// Bytes available in the outgoing datagram buffer
    ///
    /// When greater than zero, [`send`](Self::send)ing a datagram of at most this size is
    /// guaranteed not to cause older datagrams to be dropped.
    pub fn send_buffer_space(&self) -> (n: usize)
        ensures
            n == self.state().buffer_space(),
    {
        self.conn.config.datagram_send_buffer_size.saturating_sub(
            self.conn.datagrams.outgoing_total,
        )
    }
}

/// Discarding the oldest datagrams keeps a suffix of the queue that is within the budget, and the
/// longest one: every suffix that reaches further back exceeds it.
pub proof fn law_keep_newest_is_longest_suffix(q: Seq<Datagram>, budget: int)
    requires
        budget >= 0,
    ensures
        keep_newest(q, budget).len() <= q.len(),
        keep_newest(q, budget) == q.skip(q.len() - keep_newest(q, budget).len()),
        total_len(keep_newest(q, budget)) <= budget,
        forall|k: int|
            0 <= k < q.len() - keep_newest(q, budget).len() ==> total_len(#[trigger] q.skip(k))
                > budget,
    decreases q.len(),
{
    if q.len() == 0 || total_len(q) <= budget {
        assert(q.skip(0) =~= q);
    } else {
        let rest = q.drop_first();
        law_keep_newest_is_longest_suffix(rest, budget);
        let kept = keep_newest(q, budget);
        assert(rest.skip(rest.len() - kept.len()) =~= q.skip(q.len() - kept.len()));
        assert forall|k: int| 0 <= k < q.len() - kept.len() implies total_len(
            #[trigger] q.skip(k),
        ) > budget by {
            if k == 0 {
                assert(q.skip(0) =~= q);
            } else {
                assert(rest.skip(k - 1) =~= q.skip(k));
            }
        }
    }
}

/// While the send buffer has space, sending a datagram of at most that size drops none of the
/// older ones, and does not block either.
pub proof fn law_send_within_space_drops_nothing(conn: Connection, len: nat)
    requires
        conn.wf(),
        0 < conn.buffer_space(),
        len <= conn.buffer_space(),
    ensures
        keep_newest(
            conn.datagrams.outgoing@,
            room_for(len, conn.config.datagram_send_buffer_size as nat),
        ) == conn.datagrams.outgoing@,
        conn.datagrams.outgoing_total + len <= conn.config.datagram_send_buffer_size,
{
}

/// The queue after each datagram of a batch was sent on its own, dropping old ones to make space
/// and skipping those that are too large.
pub open spec fn sent_one_by_one(
    q: Seq<Datagram>,
    batch: Seq<Bytes>,
    max: nat,
    budget: nat,
) -> Seq<Datagram>
    decreases batch.len(),
{
    if batch.len() == 0 {
        q
    } else {
        let before = sent_one_by_one(q, batch.drop_last(), max, budget);
        let len = bytes_view(batch.last()).len();
        if len <= max {
            keep_newest(before, room_for(len, budget)).push(Datagram { data: batch.last() })
        } else {
            before
        }
    }
}

proof fn lemma_keep_newest_push(q: Seq<Datagram>, d: Datagram, budget: int)
    ensures
        keep_newest(keep_newest(q, budget).push(d), budget) == keep_newest(q.push(d), budget),
    decreases q.len(),
{
    if q.len() > 0 && total_len(q) > budget {
        lemma_keep_newest_push(q.drop_first(), d, budget);
        lemma_total_len_push(q, d);
        assert(q.push(d).drop_first() =~= q.drop_first().push(d));
    }
}

/// Making space before a datagram is queued, or discarding down to the budget afterwards, is the
/// same for a datagram within the budget. A larger one is itself discarded afterwards.
proof fn lemma_keep_newest_room(q: Seq<Datagram>, d: Datagram, budget: nat)
    ensures
        keep_newest(q.push(d), budget as int) == if d.len() <= budget {
            keep_newest(q, room_for(d.len(), budget)).push(d)
        } else {
            Seq::<Datagram>::empty()
        },
    decreases q.len(),
{
    lemma_total_len_push(q, d);
    if q.len() == 0 {
        assert(q.push(d).drop_first() =~= Seq::<Datagram>::empty());
        assert(keep_newest(Seq::<Datagram>::empty(), budget as int) =~= Seq::<
            Datagram,
        >::empty());
    } else {
        assert(q.push(d).drop_first() =~= q.drop_first().push(d));
        lemma_keep_newest_room(q.drop_first(), d, budget);
    }
}

proof fn lemma_sends_within_budget(q: Seq<Datagram>, batch: Seq<Bytes>, max: nat, budget: nat)
    ensures
        keep_newest(sent_one_by_one(q, batch, max, budget), budget as int) == keep_newest(
            q + accepted(batch, max),
            budget as int,
        ),
    decreases batch.len(),
{
    if batch.len() == 0 {
        reveal(Seq::filter);
        assert(q + accepted(batch, max) =~= q);
    } else {
        let front = batch.drop_last();
        let d = Datagram { data: batch.last() };
        let whole = q + accepted(front, max);
        let before = sent_one_by_one(q, front, max, budget);
        assert(front.push(batch.last()) =~= batch);
        lemma_accepted_push(front, batch.last(), max);
        lemma_sends_within_budget(q, front, max, budget);
        if d.len() <= max {
            assert(q + accepted(batch, max) =~= whole.push(d));
            let made = keep_newest(before, room_for(d.len(), budget));
            lemma_keep_newest_push(whole, d, budget as int);
            lemma_keep_newest_push(before, d, budget as int);
            lemma_keep_newest_room(before, d, budget);
            lemma_keep_newest_room(made, d, budget);
            if d.len() <= budget {
                law_keep_newest_is_longest_suffix(before, room_for(d.len(), budget));
                lemma_total_len_push(made, d);
            }
        }
    }
}

/// Sending a batch in one call leaves the same queue as sending its datagrams one by one. It does
/// not where the last datagram queued exceeds the send buffer budget alone, which then stays if it
/// was sent on its own, nor where none is queued though the queue exceeds the budget already.
pub proof fn law_send_many_matches_sends(
    q: Seq<Datagram>,
    batch: Seq<Bytes>,
    max: nat,
    budget: nat,
)
    requires
        accepted(batch, max).len() > 0 ==> accepted(batch, max).last().len() <= budget,
        accepted(batch, max).len() == 0 ==> total_len(q) <= budget,
    ensures
        keep_newest(q + accepted(batch, max), budget as int) == sent_one_by_one(
            q,
            batch,
            max,
            budget,
        ),
    decreases batch.len(),
{
    if batch.len() == 0 {
        reveal(Seq::filter);
        assert(q + accepted(batch, max) =~= q);
    } else {
        let front = batch.drop_last();
        let d = Datagram { data: batch.last() };
        let before = sent_one_by_one(q, front, max, budget);
        assert(front.push(batch.last()) =~= batch);
        lemma_accepted_push(front, batch.last(), max);
        if d.len() <= max {
            lemma_sends_within_budget(q, front, max, budget);
            let whole = q + accepted(front, max);
            assert(q + accepted(batch, max) =~= whole.push(d));
            lemma_keep_newest_push(whole, d, budget as int);
            lemma_keep_newest_push(before, d, budget as int);
            lemma_keep_newest_room(before, d, budget);
        } else {
            law_send_many_matches_sends(q, front, max, budget);
        }
    }
}

/// Where the send buffer has space for the whole batch, nothing is discarded either way: sending it
/// in one call leaves the same queue as sending its datagrams one by one.
pub proof fn law_batch_within_space_drops_nothing(
    q: Seq<Datagram>,
    batch: Seq<Bytes>,
    max: nat,
    budget: nat,
)
    requires
        total_len(q) + total_len(accepted(batch, max)) <= budget,
    ensures
        sent_one_by_one(q, batch, max, budget) == q + accepted(batch, max),
        keep_newest(q + accepted(batch, max), budget as int) == q + accepted(batch, max),
    decreases batch.len(),
{
    lemma_total_len_add(q, accepted(batch, max));
    if batch.len() == 0 {
        reveal(Seq::filter);
        assert(q + accepted(batch, max) =~= q);
    } else {
        let front = batch.drop_last();
        let last = batch.last();
        assert(front.push(last) =~= batch);
        lemma_accepted_push(front, last, max);
        lemma_total_len_push(accepted(front, max), Datagram { data: last });
        law_batch_within_space_drops_nothing(q, front, max, budget);
        lemma_total_len_add(q, accepted(front, max));
        assert(q + accepted(batch, max) =~= if bytes_view(last).len() <= max {
            (q + accepted(front, max)).push(Datagram { data: last })
        } else {
            q + accepted(front, max)
        });
    }
}

/// What is left of a queue, and what has been taken, after `n` times the oldest datagram was
/// taken.
pub open spec fn taken_one_by_one(q: Seq<Datagram>, n: nat) -> (Seq<Bytes>, Seq<Datagram>)
    decreases n,
{
    if n == 0 {
        (Seq::empty(), q)
    } else {
        let (taken, left) = taken_one_by_one(q, (n - 1) as nat);
        (taken.push(left[0].data), left.drop_first())
    }
}

/// Receiving `n` datagrams in one call yields the same datagrams in the same order, and leaves
/// the same queue, as receiving them one by one.
pub proof fn law_recv_many_matches_recvs(q: Seq<Datagram>, n: nat)
    requires
        n <= q.len(),
    ensures
        taken_one_by_one(q, n) == (payloads(q.take(n as int)), q.skip(n as int)),
    decreases n,
{
    if n == 0 {
        assert(payloads(q.take(0)) =~= Seq::<Bytes>::empty());
        assert(q.skip(0) =~= q);
    } else {
        law_recv_many_matches_recvs(q, (n - 1) as nat);
        assert(q.skip(n - 1).drop_first() =~= q.skip(n as int));
        assert(payloads(q.take(n - 1)).push(q[n - 1].data) =~= payloads(q.take(n as int)));
    }
}

/// A received datagram is delivered after all that were received before it and are still
/// buffered; while the window has room for it none of those is lost.
pub proof fn law_received_is_delivered_last(q: Seq<Datagram>, d: Datagram, window: nat)
    requires
        d.len() <= window,
    ensures
        ({
            let kept = keep_newest(q, window - d.len());
            let after = payloads(kept.push(d));
            &&& after.last() == d.data
            &&& after.drop_last() == payloads(q).skip(q.len() - kept.len())
            &&& total_len(q) + d.len() <= window ==> kept == q
        }),
{
    let kept = keep_newest(q, window - d.len());
    law_keep_newest_is_longest_suffix(q, window - d.len());
    assert(payloads(kept.push(d)).drop_last() =~= payloads(q).skip(q.len() - kept.len()));
}

/// Discarding oversized datagrams a second time changes nothing, and those that stay are no
/// larger than the limit.
pub proof fn law_drop_oversized_is_final(q: Seq<Datagram>, max_payload: nat)
    ensures
        ({
            let keep = |d: Datagram| d.len() <= max_payload;
            let once = q.filter(keep);
            &&& once.filter(keep) == once
            &&& forall|i: int| 0 <= i < once.len() ==> (#[trigger] once[i]).len() <= max_payload
        }),
    decreases q.len(),
{
    let keep = |d: Datagram| d.len() <= max_payload;
    let once = q.filter(keep);
    assert forall|i: int| 0 <= i < once.len() implies (#[trigger] once[i]).len()
        <= max_payload by {
        q.lemma_filter_pred(keep, i);
        assert(keep(once[i]));
    }
    if q.len() == 0 {
        reveal(Seq::filter);
    } else {
        law_drop_oversized_is_final(q.drop_last(), max_payload);
        assert(q.drop_last().push(q.last()) =~= q);
        q.drop_last().lemma_filter_push(q.last(), keep);
        q.drop_last().filter(keep).lemma_filter_push(q.last(), keep);
    }
}

/// A datagram of the maximum size, framed, fits a packet on the path, and the limit of a peer
/// that has room for the framing.
pub proof fn law_max_size_fits(conn: Connection, d: Datagram)
    requires
        conn.wf(),
        conn.max_datagram_size() is Some,
        d.len() <= conn.max_datagram_size()->0,
    ensures
        conn.one_rtt_overhead + d.encoded(true).len() <= conn.current_mtu,
        conn.peer_params.max_datagram_frame_size->0 >= SIZE_BOUND ==> d.encoded(true).len()
            <= conn.peer_params.max_datagram_frame_size->0,
{
    d.lemma_encoded_len(true);
}

/// On a path that carries packets of 1200 bytes, as every QUIC path does, and with a peer whose
/// limit is large enough, datagrams of a little over a kilobyte can be sent.
pub proof fn law_max_size_exceeds_a_kilobyte(conn: Connection)
    requires
        conn.wf(),
        conn.datagrams_enabled(),
        conn.current_mtu >= 1200,
        conn.one_rtt_overhead <= 166,
        conn.peer_params.max_datagram_frame_size->0 > 1024 + SIZE_BOUND,
    ensures
        conn.max_datagram_size() is Some,
        conn.max_datagram_size()->0 > 1024,
{
}

/// The maximum size is the largest that fits: it takes up what the path leaves of a packet, or what
/// the peer takes, and there is none exactly where one side has no datagrams.
pub proof fn law_max_size_is_the_largest(d: Datagrams<'_>, r: Option<usize>)
    requires
        d.state().wf(),
        call_ensures(Datagrams::max_size, (&d,), r),
    ensures
        ({
            let c = d.state();
            let mtu = c.current_mtu as int;
            let framing = c.one_rtt_overhead + SIZE_BOUND;
            let peer = c.peer_params.max_datagram_frame_size;
            &&& r is Some <==> c.config.datagram_receive_buffer_size is Some && peer is Some
            &&& r matches Some(n) ==> {
                &&& framing + n <= mtu
                &&& n == 0 || SIZE_BOUND + n <= peer->0
                &&& {
                    ||| framing + n == mtu
                    ||| SIZE_BOUND + n == peer->0
                    ||| n == 0 && peer->0 < SIZE_BOUND
                }
            }
        }),
{
}

/// A send fails exactly where the datagram cannot be sent: where one side has no datagrams, where
/// it is too large for the path or the peer, or where the send buffer has no space and none may be
/// made. A failed send leaves the queue alone, and hands back what it has no space for.
pub proof fn law_send_fails_only_where_it_must(
    d: &mut Datagrams<'_>,
    data: Bytes,
    drop: bool,
    r: Result<(), SendDatagramError>,
)
    requires
        old(d).state().wf(),
        call_ensures(Datagrams::send, (d, data, drop), r),
    ensures
        ({
            let c = old(d).state();
            let len = bytes_view(data).len();
            let local = c.config.datagram_receive_buffer_size is Some;
            let peer = c.peer_params.max_datagram_frame_size;
            let large = c.one_rtt_overhead + SIZE_BOUND + len > c.current_mtu || (len > 0
                && SIZE_BOUND + len > peer->0);
            let full = c.datagrams.outgoing_total + len > c.config.datagram_send_buffer_size;
            &&& r == Err::<(), _>(SendDatagramError::Disabled) <==> !local
            &&& r == Err::<(), _>(SendDatagramError::UnsupportedByPeer) <==> local && peer is None
            &&& r == Err::<(), _>(SendDatagramError::TooLarge) <==> local && peer is Some && large
            &&& r == Err::<(), _>(SendDatagramError::Blocked(data)) <==> local && peer is Some
                && !large && !drop && full
            &&& r is Ok <==> local && peer is Some && !large && (drop || !full)
            &&& r is Err ==> final(d).state().datagrams.outgoing@ == c.datagrams.outgoing@
            &&& final(d).state().datagrams.send_blocked <==> c.datagrams.send_blocked || r == Err::<
                (),
                _,
            >(SendDatagramError::Blocked(data))
            &&& final(d).state().datagrams.incoming@ == c.datagrams.incoming@
        }),
{
}

/// A send puts the datagram last. Of the datagrams before it only the oldest are discarded, only
/// where that is allowed, and no more than it takes for all to be within the send buffer budget. A
/// datagram that exceeds the budget alone displaces none that are within it.
pub proof fn law_send_displaces_as_little_as_it_can(
    d: &mut Datagrams<'_>,
    data: Bytes,
    drop: bool,
    k: int,
)
    requires
        old(d).state().wf(),
        call_ensures(Datagrams::send, (d, data, drop), Ok::<(), SendDatagramError>(())),
    ensures
        ({
            let before = old(d).state().datagrams.outgoing@;
            let after = final(d).state().datagrams.outgoing@;
            let budget = old(d).state().config.datagram_send_buffer_size;
            let len = bytes_view(data).len();
            let gone = before.len() + 1 - after.len();
            &&& gone >= 0
            &&& after.len() > 0 && after.last().data == data
            &&& after.drop_last() == before.skip(gone)
            &&& !drop ==> gone == 0
            &&& len <= budget ==> total_len(after) <= budget
            &&& len > budget ==> total_len(after.drop_last()) <= budget
            &&& 0 <= k < gone ==> total_len(before.skip(k)) + (if len <= budget {
                len
            } else {
                0
            }) > budget
        }),
{
    let before = old(d).state().datagrams.outgoing@;
    let after = final(d).state().datagrams.outgoing@;
    let budget = old(d).state().config.datagram_send_buffer_size as nat;
    let len = bytes_view(data).len();
    let kept = if drop {
        keep_newest(before, room_for(len, budget))
    } else {
        before
    };
    assert(after == kept.push(Datagram { data }));
    assert(after.drop_last() =~= kept);
    lemma_total_len_push(kept, Datagram { data });
    assert(before.skip(0) =~= before);
    if drop {
        law_keep_newest_is_longest_suffix(before, room_for(len, budget));
    }
}

/// How much of the send buffer is free is what is missing to the budget: datagrams and free space
/// make up the budget, or there is no free space.
pub proof fn law_space_and_queue_make_up_the_budget(d: Datagrams<'_>, n: usize)
    requires
        d.state().wf(),
        call_ensures(Datagrams::send_buffer_space, (&d,), n),
    ensures
        ({
            let queued = total_len(d.state().datagrams.outgoing@);
            let budget = d.state().config.datagram_send_buffer_size;
            if queued <= budget {
                queued + n == budget
            } else {
                n == 0
            }
        }),
{
}

/// A batch of one datagram is sent like that datagram on its own, unless it exceeds the send buffer
/// budget alone.
pub proof fn law_batch_of_one_is_a_send(
    a: &mut Datagrams<'_>,
    b: &mut Datagrams<'_>,
    data: Bytes,
    batch: Vec<Bytes>,
    sent: Result<(), SendDatagramError>,
    queued: Result<usize, SendDatagramError>,
)
    requires
        old(a).state() == old(b).state(),
        old(a).state().wf(),
        batch@ == seq![data],
        bytes_view(data).len() <= old(a).state().config.datagram_send_buffer_size,
        call_ensures(Datagrams::send, (a, data, true), sent),
        call_ensures(Datagrams::send_many, (b, batch), queued),
    ensures
        sent is Ok <==> queued == Ok::<_, SendDatagramError>(1usize),
        sent matches Err(e) ==> queued == Err::<usize, _>(e),
        final(a).state().datagrams.outgoing@ == final(b).state().datagrams.outgoing@,
        final(a).state().datagrams.incoming@ == final(b).state().datagrams.incoming@,
        final(a).state().datagrams.send_blocked == final(b).state().datagrams.send_blocked,
{
    let c = old(a).state();
    let q = c.datagrams.outgoing@;
    let max = c.max_datagram_size()->0;
    let budget = c.config.datagram_send_buffer_size as nat;
    let none = Seq::<Bytes>::empty();
    assert(none.push(data) =~= batch@);
    assert(accepted(none, max) =~= Seq::<Datagram>::empty()) by {
        reveal(Seq::filter);
    }
    lemma_accepted_push(none, data, max);
    if c.datagrams_enabled() && bytes_view(data).len() <= max {
        let d = Datagram { data };
        assert(accepted(batch@, max) =~= seq![d]);
        assert(q + accepted(batch@, max) =~= q.push(d));
        lemma_keep_newest_room(q, d, budget);
    } else if c.datagrams_enabled() {
        assert(accepted(batch@, max).len() == 0);
    }
}

/// A batch fails exactly where one side has no datagrams, or it has datagrams and all are too
/// large. Otherwise what fits is counted and appended in order, and the oldest datagrams are
/// discarded as far as it takes to be within the budget and no further.
pub proof fn law_send_many_queues_what_fits(
    d: &mut Datagrams<'_>,
    batch: Vec<Bytes>,
    r: Result<usize, SendDatagramError>,
    k: int,
)
    requires
        old(d).state().wf(),
        call_ensures(Datagrams::send_many, (d, batch), r),
    ensures
        ({
            let c = old(d).state();
            let local = c.config.datagram_receive_buffer_size is Some;
            let peer = c.peer_params.max_datagram_frame_size is Some;
            let fitting = batch@.filter(|b: Bytes| c.can_carry(bytes_view(b).len()));
            let all = c.datagrams.outgoing@ + fitting.map_values(|b: Bytes| Datagram { data: b });
            let after = final(d).state().datagrams.outgoing@;
            let gone = all.len() - after.len();
            &&& r == Err::<usize, _>(SendDatagramError::Disabled) <==> !local
            &&& r == Err::<usize, _>(SendDatagramError::UnsupportedByPeer) <==> local && !peer
            &&& r == Err::<usize, _>(SendDatagramError::TooLarge) <==> local && peer && batch@.len()
                > 0 && fitting.len() == 0
            &&& r is Err ==> after == c.datagrams.outgoing@
            &&& r matches Ok(n) ==> {
                &&& local && peer
                &&& n == fitting.len()
                &&& gone >= 0
                &&& after == all.skip(gone)
                &&& total_len(after) <= c.config.datagram_send_buffer_size
                &&& 0 <= k < gone ==> total_len(all.skip(k)) > c.config.datagram_send_buffer_size
            }
        }),
{
    let c = old(d).state();
    if c.datagrams_enabled() {
        let max = c.max_datagram_size()->0;
        let within = |b: Bytes| bytes_view(b).len() <= max;
        let fits = |b: Bytes| c.can_carry(bytes_view(b).len());
        assert(fits =~= within);
        let fresh = accepted(batch@, max);
        let all = c.datagrams.outgoing@ + fresh;
        law_keep_newest_is_longest_suffix(all, c.config.datagram_send_buffer_size as int);
        lemma_accepted_add(batch@, Seq::empty(), max);
        assert(batch@.filter(fits).map_values(|b: Bytes| Datagram { data: b }) =~= fresh);
        assert(batch.len() == batch@.len());
        assert(fresh.len() == batch@.filter(fits).len());
        assert(fresh.len() <= usize::MAX);
    }
}

/// Received datagrams are taken in the order in which they came, one or many at a time, and what is
/// taken and what is left is what there was.
pub proof fn law_recv_takes_the_oldest(
    one: &mut DatagramState,
    many: &mut DatagramState,
    out: &mut Vec<Bytes>,
    limit: usize,
    r: Option<Bytes>,
    n: usize,
    i: int,
)
    requires
        call_ensures(DatagramState::recv, (one,), r),
        call_ensures(DatagramState::recv_up_to, (many, out, limit), n),
    ensures
        r is None <==> old(one).incoming@.len() == 0,
        r matches Some(data) ==> {
            &&& old(one).incoming@[0].data == data
            &&& final(one).incoming@.len() == old(one).incoming@.len() - 1
            &&& 0 <= i < final(one).incoming@.len() ==> final(one).incoming@[i]
                == old(one).incoming@[i + 1]
        },
        n <= limit,
        n < limit ==> final(many).incoming@.len() == 0,
        final(out)@.len() == old(out)@.len() + n,
        final(many).incoming@.len() + n == old(many).incoming@.len(),
        0 <= i < old(out)@.len() ==> final(out)@[i] == old(out)@[i],
        0 <= i < n ==> final(out)@[old(out)@.len() + i] == old(many).incoming@[i].data,
        0 <= i < final(many).incoming@.len() ==> final(many).incoming@[i]
            == old(many).incoming@[n + i],
{
}

/// The interface of a connection takes as many datagrams at once as are buffered, or as the vector
/// has room for if that is fewer: nothing stays buffered where there is room for all.
pub proof fn law_recv_many_takes_what_there_is_room_for(
    d: &mut Datagrams<'_>,
    out: &mut Vec<Bytes>,
    n: usize,
    i: int,
)
    requires
        call_ensures(Datagrams::recv_many, (d, out), n),
    ensures
        ({
            let before = old(d).state().datagrams.incoming@;
            let after = final(d).state().datagrams.incoming@;
            &&& exists|c: usize| #[trigger]
                reports_capacity(*old(out), c) && n <= c && (n == c || after.len() == 0)
            &&& (forall|c: usize| #[trigger]
                reports_capacity(*old(out), c) ==> c >= before.len()) ==> after.len() == 0
            &&& n + after.len() == before.len()
            &&& final(out)@.len() == old(out)@.len() + n
            &&& 0 <= i < old(out)@.len() ==> final(out)@[i] == old(out)@[i]
            &&& 0 <= i < n ==> final(out)@[old(out)@.len() + i] == before[i].data
            &&& 0 <= i < after.len() ==> after[i] == before[n + i]
            &&& final(d).state().datagrams.outgoing@ == old(d).state().datagrams.outgoing@
        }),
{
}

/// A datagram that the window takes is buffered last, and the oldest make way for it only as far as
/// they must. Nothing else is refused but a datagram beyond the window, and any without one.
pub proof fn law_received_displaces_as_little_as_it_can(
    s: &mut DatagramState,
    d: Datagram,
    window: &Option<usize>,
    r: Result<bool, TransportError>,
    k: int,
)
    requires
        old(s).wf(),
        call_ensures(DatagramState::received, (s, d, window), r),
    ensures
        ({
            let before = old(s).incoming@;
            let after = final(s).incoming@;
            let gone = before.len() + 1 - after.len();
            &&& r is Ok <==> *window is Some && bytes_view(d.data).len() <= (*window)->0
            &&& r is Err ==> after == before
            &&& r matches Ok(was_empty) ==> {
                &&& was_empty <==> total_len(before) == 0
                &&& gone >= 0 && after.len() > 0 && after.last() == d
                &&& after.drop_last() == before.skip(gone)
                &&& total_len(after) <= (*window)->0
                &&& 0 <= k < gone ==> total_len(before.skip(k)) + bytes_view(d.data).len()
                    > (*window)->0
            }
        }),
{
    if r is Ok {
        let w = (*window)->0;
        let room = w - d.len();
        law_keep_newest_is_longest_suffix(old(s).incoming@, room);
        let kept = keep_newest(old(s).incoming@, room);
        assert(final(s).incoming@.drop_last() =~= kept);
        lemma_total_len_push(kept, d);
    }
}

/// Discarding oversized datagrams leaves all that are within the limit, and no others.
pub proof fn law_drop_oversized_keeps_what_fits(
    s: &mut DatagramState,
    max_payload: usize,
    dropped: bool,
    d: Datagram,
)
    requires
        call_ensures(DatagramState::drop_oversized, (s, max_payload), dropped),
    ensures
        final(s).outgoing@.contains(d) <==> old(s).outgoing@.contains(d) && bytes_view(d.data).len()
            <= max_payload,
        final(s).outgoing@.len() <= old(s).outgoing@.len(),
        !dropped ==> final(s).outgoing@ == old(s).outgoing@,
        dropped ==> final(s).outgoing@.len() < old(s).outgoing@.len(),
        final(s).incoming@ == old(s).incoming@,
{
    let keep = |d: Datagram| d.len() <= max_payload;
    let q = old(s).outgoing@;
    assert(final(s).outgoing@ == q.filter(keep));
    lemma_filter_of_queue(q, max_payload as nat, d);
}

proof fn lemma_filter_of_queue(q: Seq<Datagram>, max_payload: nat, d: Datagram)
    ensures
        ({
            let kept = q.filter(|d: Datagram| d.len() <= max_payload);
            let large = exists|i: int| 0 <= i < q.len() && (#[trigger] q[i]).len() > max_payload;
            &&& kept.contains(d) <==> q.contains(d) && d.len() <= max_payload
            &&& kept.len() <= q.len()
            &&& !large ==> kept == q
            &&& large ==> kept.len() < q.len()
        }),
    decreases q.len(),
{
    let keep = |d: Datagram| d.len() <= max_payload;
    let kept = q.filter(keep);
    if q.len() == 0 {
        reveal(Seq::filter);
        assert(kept =~= q);
    } else {
        let front = q.drop_last();
        let last = q.last();
        assert(front.push(last) =~= q);
        lemma_filter_of_queue(front, max_payload, d);
        front.lemma_filter_push(last, keep);
        let small = front.filter(keep);
        assert(kept == if keep(last) {
            small.push(last)
        } else {
            small
        });
        // What is in a queue is in its front, or is its last.
        assert(q.contains(d) <==> front.contains(d) || last == d) by {
            if q.contains(d) {
                let i = choose|i: int| 0 <= i < q.len() && q[i] == d;
                if i < front.len() {
                    assert(front[i] == d);
                }
            }
            if front.contains(d) {
                let i = choose|i: int| 0 <= i < front.len() && front[i] == d;
                assert(q[i] == d);
            }
            if last == d {
                assert(q[q.len() - 1] == d);
            }
        }
        if keep(last) {
            assert(kept.contains(d) <==> small.contains(d) || last == d) by {
                if kept.contains(d) {
                    let i = choose|i: int| 0 <= i < kept.len() && kept[i] == d;
                    if i < small.len() {
                        assert(small[i] == d);
                    }
                }
                if small.contains(d) {
                    let i = choose|i: int| 0 <= i < small.len() && small[i] == d;
                    assert(kept[i] == d);
                }
                if last == d {
                    assert(kept[kept.len() - 1] == d);
                }
            }
        }
        assert(forall|i: int| 0 <= i < front.len() ==> front[i] == q[i]);
        let large = exists|i: int| 0 <= i < q.len() && (#[trigger] q[i]).len() > max_payload;
        if exists|i: int| 0 <= i < front.len() && (#[trigger] front[i]).len() > max_payload {
            let i = choose|i: int|
                0 <= i < front.len() && (#[trigger] front[i]).len() > max_payload;
            assert(q[i].len() > max_payload);
        } else if last.len() > max_payload {
            assert(q[q.len() - 1].len() > max_payload);
        } else {
            assert(!large) by {
                if large {
                    let i = choose|i: int|
                        0 <= i < q.len() && (#[trigger] q[i]).len() > max_payload;
                    if i < front.len() {
                        assert(front[i].len() > max_payload);
                    }
                }
            }
        }
    }
}

/// A frame is written exactly where there is a datagram and it fits what is left of the packet; it
/// is that of the oldest datagram, which then leaves the queue.
pub proof fn law_write_takes_the_oldest_that_fits(
    s: &mut DatagramState,
    buf: &mut PacketBuilder,
    stat: &mut FrameStats,
    written: bool,
)
    requires
        call_ensures(DatagramState::write, (s, buf, stat), written),
    ensures
        ({
            let q = old(s).outgoing@;
            let fits = q.len() > 0 && old(buf).buf@.len() + q[0].encoded(true).len() <= old(
                buf,
            ).limit;
            &&& written <==> fits
            &&& written ==> final(buf).buf@ == old(buf).buf@ + q[0].encoded(true)
                && final(s).outgoing@ == q.skip(1) && final(stat).datagram == old(stat).datagram + 1
            &&& !written ==> final(buf).buf@ == old(buf).buf@ && final(s).outgoing@ == q
                && final(stat).datagram == old(stat).datagram
            &&& final(buf).limit == old(buf).limit
            &&& final(s).incoming@ == old(s).incoming@
        }),
{
    let q = old(s).outgoing@;
    if q.len() > 0 {
        q[0].lemma_encoded_len(true);
        assert(q.drop_first() =~= q.skip(1));
    }
}

/// In every state the byte counters are the sums over the queues, and settings are kept by what
/// keeps settings.
pub proof fn law_counters_agree_with_queues(a: Connection, b: Connection, i: int)
    requires
        a.wf(),
    ensures
        a.datagrams.recv_buffered == total_len(a.datagrams.incoming@),
        a.datagrams.outgoing_total == total_len(a.datagrams.outgoing@),
        0 <= i < a.datagrams.outgoing@.len() ==> bytes_view(a.datagrams.outgoing@[i].data).len()
            <= 65535,
        a.datagrams.same_incoming(b.datagrams) <==> a.datagrams.incoming@ == b.datagrams.incoming@
            && a.datagrams.recv_buffered == b.datagrams.recv_buffered,
        a.datagrams.same_outgoing(b.datagrams) <==> a.datagrams.outgoing@ == b.datagrams.outgoing@
            && a.datagrams.outgoing_total == b.datagrams.outgoing_total
            && a.datagrams.send_blocked == b.datagrams.send_blocked,
        a.same_settings(b) <==> a.config == b.config && a.peer_params == b.peer_params
            && a.current_mtu == b.current_mtu && a.one_rtt_overhead == b.one_rtt_overhead,
{
    if 0 <= i < a.datagrams.outgoing@.len() {
        assert(a.datagrams.outgoing@[i].len() <= MAX_PAYLOAD);
    }
}

/// A connection is valid exactly where its byte counters are the sums over the queues, every
/// datagram to be sent fits a UDP payload, and a packet has room for a frame if datagrams can be
/// sent at all.
pub proof fn law_valid_connections_are_these(c: Connection)
    ensures
        c.wf() <==> {
            &&& c.datagrams.recv_buffered == total_len(c.datagrams.incoming@)
            &&& c.datagrams.outgoing_total == total_len(c.datagrams.outgoing@)
            &&& forall|i: int|
                0 <= i < c.datagrams.outgoing@.len() ==> bytes_view(
                    (#[trigger] c.datagrams.outgoing@[i]).data,
                ).len() <= 65535
            &&& c.config.datagram_receive_buffer_size is Some
                && c.peer_params.max_datagram_frame_size is Some ==> c.one_rtt_overhead + SIZE_BOUND
                <= c.current_mtu
        },
{
    let q = c.datagrams.outgoing@;
    assert(forall|i: int|
        0 <= i < q.len() ==> (#[trigger] q[i]).len() == bytes_view(q[i].data).len());
}

/// The bytes in a queue are those of its datagrams, each counted once.
pub proof fn law_total_is_the_sum(q: Seq<Datagram>, d: Datagram)
    ensures
        total_len(Seq::<Datagram>::empty()) == 0,
        total_len(q.push(d)) == total_len(q) + bytes_view(d.data).len(),
{
    lemma_total_len_push(q, d);
}

} // verus!
