//! Control messages: what a UDP socket and the kernel tell each other beside a datagram.
//!
//! A control buffer is a row of messages, each a header, the payload, and padding up to where the
//! next one may start. Messages are addressed here by their offset into the buffer.

pub mod unix;
pub mod windows;

use vstd::prelude::*;
use vstd::slice::slice_subrange;

use crate::words::{
    byte_span, law_bytes_follow_from_the_number, law_word_reads_back, lemma_byte_spans,
    lemma_word_bytes_len, lemma_word_value_bound, overwritten, read_word, word_bytes, word_value,
    write_bytes, write_word,
};

verus! {

/// `n` rounded up to a multiple of `unit`.
#[verifier::opaque]
pub open spec fn round_up(n: nat, unit: nat) -> nat {
    (((n + unit - 1) / unit as int) * unit) as nat
}

pub proof fn lemma_round_up(n: nat, unit: nat)
    requires
        unit == 4 || unit == 8 || unit == 16,
    ensures
        n <= round_up(n, unit) < n + unit,
        round_up(n, unit) % unit == 0,
        round_up(n, unit) == n + (if n % unit == 0 {
            0
        } else {
            unit - n % unit
        }),
        n % unit == 0 ==> round_up(n, unit) == n,
{
    reveal(round_up);
    if unit == 4 {
        assert(round_up(n, 4) == ((n + 3) / 4) * 4);
    } else if unit == 8 {
        assert(round_up(n, 8) == ((n + 7) / 8) * 8);
    } else {
        assert(round_up(n, 16) == ((n + 15) / 16) * 16);
    }
}

proof fn lemma_round_up_add_four(base: nat, n: nat)
    requires
        base % 4 == 0,
    ensures
        round_up(base + n, 4) == base + round_up(n, 4),
{
    let k = base / 4;
    let q = (n + 3) / 4;
    assert(base == 4 * k);
    assert((base + n + 3) / 4 == k + q);
    assert(round_up(n, 4) == q * 4) by {
        reveal(round_up);
    }
    assert(round_up(base + n, 4) == (k + q) * 4) by {
        reveal(round_up);
    }
}

proof fn lemma_round_up_add_eight(base: nat, n: nat)
    requires
        base % 8 == 0,
    ensures
        round_up(base + n, 8) == base + round_up(n, 8),
{
    let k = base / 8;
    let q = (n + 7) / 8;
    assert(base == 8 * k);
    assert((base + n + 7) / 8 == k + q);
    assert(round_up(n, 8) == q * 8) by {
        reveal(round_up);
    }
    assert(round_up(base + n, 8) == (k + q) * 8) by {
        reveal(round_up);
    }
}

proof fn lemma_round_up_add_sixteen(base: nat, n: nat)
    requires
        base % 16 == 0,
    ensures
        round_up(base + n, 16) == base + round_up(n, 16),
{
    let k = base / 16;
    let q = (n + 15) / 16;
    assert(base == 16 * k);
    assert((base + n + 15) / 16 == k + q);
    assert(round_up(n, 16) == q * 16) by {
        reveal(round_up);
    }
    assert(round_up(base + n, 16) == (k + q) * 16) by {
        reveal(round_up);
    }
}

pub proof fn lemma_round_up_add(base: nat, n: nat, unit: nat)
    requires
        unit == 4 || unit == 8 || unit == 16,
        base % unit == 0,
    ensures
        round_up(base + n, unit) == base + round_up(n, unit),
{
    if unit == 4 {
        lemma_round_up_add_four(base, n);
    } else if unit == 8 {
        lemma_round_up_add_eight(base, n);
    } else {
        lemma_round_up_add_sixteen(base, n);
    }
}

pub proof fn lemma_multiples_add(a: nat, b: nat, unit: nat)
    requires
        unit == 4 || unit == 8 || unit == 16,
        a % unit == 0,
        b % unit == 0,
    ensures
        (a + b) % unit == 0,
{
    if unit == 4 {
        assert((a + b) % 4 == 0);
    } else if unit == 8 {
        assert((a + b) % 8 == 0);
    } else {
        assert((a + b) % 16 == 0);
    }
}

pub proof fn lemma_round_up_monotone(m: nat, n: nat, unit: nat)
    requires
        unit == 4 || unit == 8 || unit == 16,
        m <= n,
    ensures
        round_up(m, unit) <= round_up(n, unit),
{
    reveal(round_up);
    if unit == 4 {
        assert(round_up(m, 4) == ((m + 3) / 4) * 4);
        assert(round_up(n, 4) == ((n + 3) / 4) * 4);
    } else if unit == 8 {
        assert(round_up(m, 8) == ((m + 7) / 8) * 8);
        assert(round_up(n, 8) == ((n + 7) / 8) * 8);
    } else {
        assert(round_up(m, 16) == ((m + 15) / 16) * 16);
        assert(round_up(n, 16) == ((n + 15) / 16) * 16);
    }
}

/// How a platform lays out control messages.
#[derive(Clone, Copy)]
pub struct Layout {
    /// The size of a message header
    pub header_len: usize,
    /// What offsets of messages and payloads are rounded up to
    pub unit: usize,
    /// Where the length stands in the header
    pub len_at: usize,
    /// How many bytes the length takes; the level and the type, four bytes each, end the header
    pub len_width: usize,
    /// Whether integers have their most significant byte first
    pub big_endian: bool,
    /// A message with a smaller length is followed by none
    pub min_len: usize,
    /// How many bytes at the end of the buffer the header of a following message must leave free
    pub end_slack: usize,
    /// Whether a message that is shorter than its header ends the walk
    pub stops_at_short: bool,
    /// Whether a header without control messages has no control buffer either
    pub null_when_empty: bool,
}

/// A control message, independent of where it is stored.
pub struct Message {
    pub level: i32,
    pub ty: i32,
    pub payload: Seq<u8>,
}

impl Layout {
    pub open spec fn wf(self) -> bool {
        &&& self.unit == 4 || self.unit == 8 || self.unit == 16
        &&& self.len_width == 4 || self.len_width == 8
        &&& self.len_at + self.len_width + 8 <= self.header_len <= 64
        &&& self.min_len <= self.header_len
        &&& self.end_slack <= 1
    }

    /// How far into a message the payload starts.
    pub open spec fn data_offset(self) -> nat {
        round_up(self.header_len as nat, self.unit as nat)
    }

    /// The length that the header of a message with a payload of `n` bytes holds.
    pub open spec fn len_of(self, n: nat) -> nat {
        self.data_offset() + n
    }

    /// The buffer space that a message with a payload of `n` bytes takes up.
    pub open spec fn space_of(self, n: nat) -> nat {
        self.data_offset() + round_up(n, self.unit as nat)
    }

    /// The length in the header at `at`.
    pub open spec fn len_in(self, buf: Seq<u8>, at: int) -> nat {
        word_value(
            self.big_endian,
            buf.subrange(at + self.len_at, at + self.len_at + self.len_width),
        )
    }

    /// The level in the header at `at`.
    pub open spec fn level_in(self, buf: Seq<u8>, at: int) -> i32 {
        word_value(
            self.big_endian,
            buf.subrange(at + self.header_len - 8, at + self.header_len - 4),
        ) as u32 as i32
    }

    /// The type in the header at `at`.
    pub open spec fn type_in(self, buf: Seq<u8>, at: int) -> i32 {
        word_value(
            self.big_endian,
            buf.subrange(at + self.header_len - 4, at + self.header_len as int),
        ) as u32 as i32
    }

    /// The message at `at`.
    pub open spec fn message_at(self, buf: Seq<u8>, at: int) -> Message {
        Message {
            level: self.level_in(buf, at),
            ty: self.type_in(buf, at),
            payload: buf.subrange(at + self.data_offset(), at + self.len_in(buf, at)),
        }
    }

    /// Where the first message is, if there is any.
    pub open spec fn first_at(self, control_len: nat) -> Option<int> {
        if self.header_len <= control_len {
            Some(0)
        } else {
            None
        }
    }

    /// Where the message after the one at `at` is, if there is any.
    pub open spec fn next_at(self, buf: Seq<u8>, control_len: nat, at: int) -> Option<int> {
        let len = self.len_in(buf, at);
        let next = at + round_up(len, self.unit as nat);
        if len < self.min_len || next + self.data_offset() + self.end_slack > control_len {
            None
        } else {
            Some(next)
        }
    }

    /// The messages found from `cur` on, at most `most` of them.
    pub open spec fn walk(
        self,
        buf: Seq<u8>,
        control_len: nat,
        cur: Option<int>,
        most: nat,
    ) -> Seq<Message>
        decreases most,
    {
        match cur {
            Some(at) => if most == 0 || (self.stops_at_short && self.len_in(buf, at)
                < self.header_len) {
                Seq::empty()
            } else {
                seq![self.message_at(buf, at)] + self.walk(
                    buf,
                    control_len,
                    self.next_at(buf, control_len, at),
                    (most - 1) as nat,
                )
            },
            None => Seq::empty(),
        }
    }

    /// Whether `m` is stored at `at`.
    pub open spec fn holds(self, buf: Seq<u8>, at: int, m: Message) -> bool {
        &&& 0 <= at
        &&& at + self.len_of(m.payload.len()) <= buf.len()
        &&& self.len_in(buf, at) == self.len_of(m.payload.len())
        &&& self.message_at(buf, at) == m
    }

    /// Whether the bytes between the fields of the header at `at` and before its payload are the same
    /// in both.
    pub open spec fn keeps_gaps(self, after: Seq<u8>, before: Seq<u8>, at: int) -> bool {
        forall|i: int|
            at <= i < at + self.data_offset() && !(self.len_at <= i - at < self.len_at
                + self.len_width) && !(self.header_len - 8 <= i - at < self.header_len)
                ==> #[trigger] after[i] == before[i]
    }

    /// Where the message with index `i` is when `ms` are stored one after the other.
    pub open spec fn offset_of(self, ms: Seq<Message>, i: int) -> nat
        decreases i,
    {
        if i <= 0 {
            0
        } else {
            self.offset_of(ms, i - 1) + self.space_of(ms[i - 1].payload.len())
        }
    }

    /// Whether the message with index `i` of `ms` is stored at its offset.
    pub open spec fn holds_nth(self, buf: Seq<u8>, ms: Seq<Message>, i: int) -> bool {
        self.holds(buf, self.offset_of(ms, i) as int, ms[i])
    }

    /// Whether the first `end` bytes of `buf` are `ms`, one after the other.
    pub open spec fn laid_out(self, buf: Seq<u8>, ms: Seq<Message>, end: int) -> bool {
        &&& end == self.offset_of(ms, ms.len() as int)
        &&& end <= buf.len()
        &&& forall|i: int| 0 <= i < ms.len() ==> #[trigger] self.holds_nth(buf, ms, i)
    }

    pub proof fn lemma_data_offset(self)
        requires
            self.wf(),
        ensures
            self.header_len <= self.data_offset() < self.header_len + self.unit,
            self.data_offset() % self.unit as nat == 0,
    {
        lemma_round_up(self.header_len as nat, self.unit as nat);
    }

    /// The next message starts where the space of this one ends.
    pub proof fn lemma_space_of(self, n: nat)
        requires
            self.wf(),
        ensures
            self.space_of(n) == round_up(self.len_of(n), self.unit as nat),
            self.len_of(n) <= self.space_of(n) < self.len_of(n) + self.unit,
            self.space_of(n) % self.unit as nat == 0,
    {
        self.lemma_data_offset();
        lemma_round_up_add(self.data_offset(), n, self.unit as nat);
        lemma_round_up(n, self.unit as nat);
        lemma_round_up(self.len_of(n), self.unit as nat);
    }

    pub proof fn lemma_offset_push(self, ms: Seq<Message>, m: Message, i: int)
        requires
            i <= ms.len(),
        ensures
            self.offset_of(ms.push(m), i) == self.offset_of(ms, i),
        decreases i,
    {
        if i > 0 {
            self.lemma_offset_push(ms, m, i - 1);
        }
    }

    pub proof fn lemma_offset_monotone(self, ms: Seq<Message>, i: int, j: int)
        requires
            self.wf(),
            0 <= i <= j <= ms.len(),
        ensures
            self.offset_of(ms, i) <= self.offset_of(ms, j),
            i < j ==> self.offset_of(ms, i) + self.space_of(ms[i].payload.len())
                <= self.offset_of(ms, j),
        decreases j - i,
    {
        if i < j {
            self.lemma_offset_monotone(ms, i, j - 1);
        }
    }

    /// Storing a message after `ms` keeps them and adds it.
    pub proof fn lemma_laid_out_push(self, a: Seq<u8>, b: Seq<u8>, ms: Seq<Message>, m: Message)
        requires
            self.wf(),
            self.laid_out(a, ms, self.offset_of(ms, ms.len() as int) as int),
            a.len() == b.len(),
            self.offset_of(ms, ms.len() as int) + self.space_of(m.payload.len()) <= b.len(),
            a.take(self.offset_of(ms, ms.len() as int) as int) == b.take(
                self.offset_of(ms, ms.len() as int) as int,
            ),
            self.holds(b, self.offset_of(ms, ms.len() as int) as int, m),
        ensures
            self.laid_out(
                b,
                ms.push(m),
                (self.offset_of(ms, ms.len() as int) + self.space_of(m.payload.len())) as int,
            ),
    {
        let end = self.offset_of(ms, ms.len() as int) as int;
        let all = ms.push(m);
        self.lemma_offset_push(ms, m, ms.len() as int);
        assert forall|i: int| 0 <= i < all.len() implies #[trigger] self.holds_nth(b, all, i) by {
            self.lemma_offset_push(ms, m, i);
            if i < ms.len() {
                assert(self.holds_nth(a, ms, i));
                self.lemma_offset_monotone(ms, i, ms.len() as int);
                self.lemma_space_of(ms[i].payload.len());
                self.lemma_holds_prefix(a, b, end, self.offset_of(ms, i) as int, ms[i]);
            }
        }
    }

    /// What is stored in the first `end` bytes does not depend on the bytes after them.
    pub proof fn lemma_holds_prefix(self, a: Seq<u8>, b: Seq<u8>, end: int, at: int, m: Message)
        requires
            self.wf(),
            self.holds(a, at, m),
            at + self.len_of(m.payload.len()) <= end <= a.len(),
            end <= b.len(),
            a.take(end) == b.take(end),
        ensures
            self.holds(b, at, m),
    {
        self.lemma_data_offset();
        assert forall|i: int, j: int| 0 <= i <= j <= end implies #[trigger] a.subrange(i, j)
            == b.subrange(i, j) by {
            assert(a.subrange(i, j) =~= a.take(end).subrange(i, j));
            assert(b.subrange(i, j) =~= b.take(end).subrange(i, j));
        }
    }
}

/// `n` rounded up to a multiple of `unit`.
pub fn align_to(n: usize, unit: usize) -> (r: usize)
    requires
        unit == 4 || unit == 8 || unit == 16,
        n + unit <= usize::MAX,
    ensures
        r == round_up(n as nat, unit as nat),
{
    proof {
        lemma_round_up(n as nat, unit as nat);
    }
    let over: usize = n % unit;
    if over == 0 {
        n
    } else {
        n + (unit - over)
    }
}

impl Layout {
    /// How far into a message the payload starts.
    pub fn payload_start(&self) -> (r: usize)
        requires
            self.wf(),
        ensures
            r == self.data_offset(),
    {
        align_to(self.header_len, self.unit)
    }

    /// The length that the header of a message with a payload of `length` bytes holds.
    pub fn cmsg_len(&self, length: usize) -> (r: usize)
        requires
            self.wf(),
            self.len_of(length as nat) <= usize::MAX,
        ensures
            r == self.len_of(length as nat),
    {
        self.payload_start() + length
    }

    /// The buffer space that a message with a payload of `length` bytes takes up.
    pub fn cmsg_space(&self, length: usize) -> (r: usize)
        requires
            self.wf(),
            self.space_of(length as nat) <= usize::MAX,
        ensures
            r == self.space_of(length as nat),
    {
        proof {
            self.lemma_space_of(length as nat);
            lemma_round_up(length as nat, self.unit as nat);
            self.lemma_data_offset();
        }
        self.payload_start() + align_to(length, self.unit)
    }
}

/// A control message buffer.
///
/// What is handed to the kernel is a copy in memory that is aligned like a `usize`.
pub struct ControlBuf {
    pub bytes: Vec<u8>,
}

impl ControlBuf {
    /// A zeroed buffer of `n` bytes.
    pub fn zeroed(n: usize) -> (b: Self)
        ensures
            b.bytes@ == Seq::new(n as nat, |i: int| 0u8),
    {
        let mut bytes: Vec<u8> = Vec::new();
        bytes.resize(n, 0u8);
        assert(bytes@ =~= Seq::new(n as nat, |i: int| 0u8));
        ControlBuf { bytes }
    }

    /// The size of the buffer.
    pub fn len(&self) -> (n: usize)
        ensures
            n == self.bytes@.len(),
    {
        self.bytes.len()
    }
}

/// A message header as a socket call takes it, as far as control messages go.
pub struct MsgHdr {
    /// The control buffer
    pub control: Vec<u8>,
    /// How many bytes of the control buffer are in use
    pub control_len: usize,
    /// Whether there is a control buffer at all
    pub has_control: bool,
    /// The flags the kernel set on a received message
    pub flags: i32,
}

impl MsgHdr {
    /// The bytes in use are within the buffer, and there are none without one.
    pub open spec fn wf(self) -> bool {
        &&& self.control_len <= self.control@.len()
        &&& !self.has_control ==> self.control_len == 0
    }

    /// A header whose control messages may fill all of `buf`.
    pub fn new(buf: ControlBuf) -> (hdr: Self)
        ensures
            hdr.wf(),
            hdr.control@ == buf.bytes@,
            hdr.control_len == buf.bytes@.len(),
            hdr.has_control,
            hdr.flags == 0,
    {
        let control_len: usize = buf.len();
        MsgHdr { control: buf.bytes, control_len, has_control: true, flags: 0 }
    }

    /// The messages in the control buffer, at most `most` of them.
    pub open spec fn messages(self, layout: Layout, most: nat) -> Seq<Message> {
        layout.walk(
            self.control@,
            self.control_len as nat,
            layout.first_at(self.control_len as nat),
            most,
        )
    }

    /// Where the first control message is, if there is any.
    pub fn cmsg_first_hdr(&self, layout: &Layout) -> (r: Option<usize>)
        ensures
            match r {
                Some(at) => layout.first_at(self.control_len as nat) == Some(at as int),
                None => layout.first_at(self.control_len as nat) is None,
            },
    {
        if self.control_len >= layout.header_len {
            Some(0)
        } else {
            None
        }
    }

    /// Where the control message after the one at `at` is, if there is any.
    pub fn cmsg_nxt_hdr(&self, layout: &Layout, at: usize) -> (r: Option<usize>)
        requires
            layout.wf(),
            self.wf(),
            at + layout.header_len <= self.control_len,
        ensures
            match r {
                Some(next) => {
                    &&& layout.next_at(self.control@, self.control_len as nat, at as int) == Some(
                        next as int,
                    )
                    &&& next + layout.header_len <= self.control_len
                },
                None => layout.next_at(self.control@, self.control_len as nat, at as int) is None,
            },
    {
        proof {
            layout.lemma_data_offset();
            lemma_round_up(
                layout.len_in(self.control@, at as int),
                layout.unit as nat,
            );
        }
        let len: u64 = self.header_len_field(layout, at);
        let rest: usize = self.control_len - at;
        if len < layout.min_len as u64 || len > rest as u64 {
            return None;
        }
        let len: usize = len as usize;
        let over: usize = len % layout.unit;
        let padding: usize = if over == 0 {
            0
        } else {
            layout.unit - over
        };
        if padding > rest - len {
            return None;
        }
        let step: usize = len + padding;
        if layout.payload_start() + layout.end_slack > rest - step {
            return None;
        }
        Some(at + step)
    }

    /// What the header of the control message at `at` says.
    pub fn control_message(&self, layout: &Layout, at: usize) -> (c: ControlMessage)
        requires
            layout.wf(),
            at + layout.header_len <= self.control.len(),
        ensures
            c.read_from(*layout, self.control@, at as int),
    {
        let big: bool = layout.big_endian;
        let level_at: usize = at + layout.header_len - 8;
        let type_at: usize = at + layout.header_len - 4;
        proof {
            lemma_byte_spans();
            lemma_word_value_bound(big, self.control@.subrange(level_at as int, level_at + 4));
            lemma_word_value_bound(big, self.control@.subrange(type_at as int, type_at + 4));
        }
        let level: u64 = read_word(&self.control, level_at, 4, big);
        let ty: u64 = read_word(&self.control, type_at, 4, big);
        ControlMessage {
            at,
            len: self.header_len_field(layout, at),
            level: level as u32 as i32,
            ty: ty as u32 as i32,
        }
    }

    /// The length in the header of the control message at `at`.
    fn header_len_field(&self, layout: &Layout, at: usize) -> (len: u64)
        requires
            layout.wf(),
            at + layout.header_len <= self.control.len(),
        ensures
            len == layout.len_in(self.control@, at as int),
    {
        read_word(&self.control, at + layout.len_at, layout.len_width, layout.big_endian)
    }

    /// Sets how many bytes of the control buffer are in use.
    ///
    /// Note that this is a destructive operation: how much of the buffer messages may fill is not
    /// in the header any more.
    pub fn set_control_len(&mut self, layout: &Layout, len: usize)
        ensures
            final(self).control_len == len,
            final(self).has_control == (old(self).has_control && !(layout.null_when_empty && len
                == 0)),
            final(self).control@ == old(self).control@,
            final(self).flags == old(self).flags,
    {
        self.control_len = len;
        if layout.null_when_empty && len == 0 {
            self.has_control = false;
        }
    }
}

/// Writes a message at `at`, leaving alone what is before it and after its payload.
fn store(layout: &Layout, buf: &mut Vec<u8>, at: usize, level: i32, ty: i32, payload: &[u8])
    requires
        layout.wf(),
        at + layout.len_of(payload@.len()) <= old(buf).len(),
        layout.len_of(payload@.len()) < 0x1_0000_0000,
    ensures
        final(buf)@.len() == old(buf)@.len(),
        final(buf)@.take(at as int) == old(buf)@.take(at as int),
        final(buf)@.skip(at + layout.len_of(payload@.len())) == old(buf)@.skip(
            at + layout.len_of(payload@.len()),
        ),
        layout.holds(final(buf)@, at as int, Message { level, ty, payload: payload@ }),
        layout.keeps_gaps(final(buf)@, old(buf)@, at as int),
{
    proof {
        layout.lemma_data_offset();
        lemma_byte_spans();
    }
    let big: bool = layout.big_endian;
    let len: usize = layout.cmsg_len(payload.len());
    let data: usize = at + layout.payload_start();
    let level_at: usize = at + layout.header_len - 8;
    let type_at: usize = at + layout.header_len - 4;
    let len_at: usize = at + layout.len_at;
    let ghost len_bytes = word_bytes(big, len as nat, layout.len_width as nat);
    let ghost level_bytes = word_bytes(big, level as u32 as nat, 4);
    let ghost type_bytes = word_bytes(big, ty as u32 as nat, 4);
    proof {
        lemma_word_bytes_len(big, len as nat, layout.len_width as nat);
        lemma_word_bytes_len(big, level as u32 as nat, 4);
        lemma_word_bytes_len(big, ty as u32 as nat, 4);
        law_word_reads_back(big, len as nat, layout.len_width as nat);
        law_word_reads_back(big, level as u32 as nat, 4);
        law_word_reads_back(big, ty as u32 as nat, 4);
        assert(level as u32 as i32 == level) by (bit_vector);
        assert(ty as u32 as i32 == ty) by (bit_vector);
    }
    write_word(buf, len_at, layout.len_width, len as u64, big);
    write_word(buf, level_at, 4, level as u32 as u64, big);
    write_word(buf, type_at, 4, ty as u32 as u64, big);
    write_bytes(buf, data, payload);
    proof {
        let b = buf@;
        assert(b.take(at as int) =~= old(buf)@.take(at as int));
        assert(b.skip(at + len) =~= old(buf)@.skip(at + len));
        assert(b.subrange(len_at as int, len_at + layout.len_width) =~= len_bytes);
        assert(b.subrange(level_at as int, level_at + 4) =~= level_bytes);
        assert(b.subrange(type_at as int, type_at + 4) =~= type_bytes);
        assert(b.subrange(data as int, at + len) =~= payload@);
    }
}

/// Helper to encode a series of control messages to a buffer for use in a `sendmsg` like API.
///
/// The header is usable at any time: it holds the messages so far, whether the encoder is
/// `finish`ed or dropped.
pub struct Encoder<'a, P> {
    pub hdr: &'a mut MsgHdr,
    pub layout: Layout,
    /// The platform the messages are for
    pub platform: P,
    /// Where the next message goes, if there is room for its header
    pub cmsg: Option<usize>,
    /// How many bytes the messages so far take up
    pub len: usize,
    /// How many bytes messages may take up
    pub limit: usize,
    /// Whether there was a control buffer to begin with
    pub had_control: bool,
    /// The messages so far
    pub sent: Ghost<Seq<Message>>,
}

/// Whether `after` is `before` with `m` appended: what was encoded stays, and so does the buffer
/// after the new message.
pub open spec fn appended<P>(after: Encoder<'_, P>, before: Encoder<'_, P>, m: Message) -> bool {
    &&& after.wf()
    &&& after.layout == before.layout
    &&& after.platform == before.platform
    &&& after.limit == before.limit
    &&& after.had_control == before.had_control
    &&& after.len == before.len + before.layout.space_of(m.payload.len())
    &&& after.sent@ == before.sent@.push(m)
    &&& after.header().flags == before.header().flags
    &&& after.header().control@.len() == before.header().control@.len()
    &&& after.header().control@.take(before.len as int) == before.header().control@.take(
        before.len as int,
    )
    &&& after.header().control@.skip(after.len as int) == before.header().control@.skip(
        after.len as int,
    )
    &&& after.header().control@.skip(
        before.len + before.layout.len_of(m.payload.len()),
    ) == before.header().control@.skip(before.len + before.layout.len_of(m.payload.len()))
    &&& before.layout.keeps_gaps(
        after.header().control@,
        before.header().control@,
        before.len as int,
    )
}

impl<'a, P> Encoder<'a, P> {
    /// The header as it stands.
    pub open spec fn header(&self) -> MsgHdr {
        *self.hdr
    }

    /// Whether the buffer has room for the header of the next message.
    pub open spec fn has_header_room(&self) -> bool {
        if self.sent@.len() == 0 {
            self.layout.header_len <= self.limit
        } else {
            self.len + self.layout.data_offset() + self.layout.end_slack <= self.limit
        }
    }

    /// The messages so far fill the start of the buffer, and are what the header says is in use.
    pub open spec fn wf(&self) -> bool {
        &&& self.layout.wf()
        &&& self.header().wf()
        &&& self.len <= self.limit <= self.header().control@.len()
        &&& !self.had_control ==> self.limit == 0
        &&& self.layout.laid_out(self.header().control@, self.sent@, self.len as int)
        &&& self.header().control_len == self.len
        &&& self.header().has_control == (self.had_control && !(self.layout.null_when_empty
            && self.len == 0))
        &&& self.cmsg == if self.has_header_room() {
            Some(self.len)
        } else {
            None
        }
    }

    /// Whether a message with a payload of `n` bytes can be appended.
    pub open spec fn can_push(&self, n: nat) -> bool {
        &&& self.has_header_room()
        &&& self.len + self.layout.space_of(n) <= self.limit
        &&& self.layout.len_of(n) < 0x1_0000_0000
    }

    /// Starts encoding at the beginning of the control buffer of `hdr`.
    pub fn new(hdr: &'a mut MsgHdr, layout: Layout, platform: P) -> (e: Self)
        requires
            old(hdr).wf(),
            layout.wf(),
        ensures
            e.wf(),
            e.header().control@ == old(hdr).control@,
            e.header().flags == old(hdr).flags,
            *final(e.hdr) == *final(hdr),
            e.layout == layout,
            e.platform == platform,
            e.limit == old(hdr).control_len,
            e.had_control == old(hdr).has_control,
            e.len == 0,
            e.sent@ == Seq::<Message>::empty(),
    {
        let cmsg = hdr.cmsg_first_hdr(&layout);
        let limit: usize = hdr.control_len;
        let had_control: bool = hdr.has_control;
        hdr.set_control_len(&layout, 0);
        Encoder {
            hdr,
            layout,
            platform,
            cmsg,
            len: 0,
            limit,
            had_control,
            sent: Ghost(Seq::empty()),
        }
    }

    /// Append a control message to the buffer.
    pub fn push(&mut self, level: i32, ty: i32, payload: &[u8])
        requires
            old(self).wf(),
            old(self).can_push(payload@.len()),
        ensures
            appended(*final(self), *old(self), Message { level, ty, payload: payload@ }),
            *final(final(self).hdr) == *final(old(self).hdr),
    {
        let ghost buf0 = self.header().control@;
        let ghost ms = self.sent@;
        let ghost m = Message { level, ty, payload: payload@ };
        let n: usize = payload.len();
        proof {
            self.layout.lemma_space_of(n as nat);
            self.layout.lemma_data_offset();
        }
        let at: usize = self.len;
        let layout = self.layout;
        let space: usize = layout.cmsg_space(n);
        store(&layout, &mut self.hdr.control, at, level, ty, payload);
        self.len = at + space;
        proof {
            layout.lemma_laid_out_push(buf0, self.header().control@, ms, m);
            assert(buf0.skip(at + layout.len_of(n as nat)).skip(
                space - layout.len_of(n as nat),
            ) =~= buf0.skip(at + space));
            assert(self.header().control@.skip(at + layout.len_of(n as nat)).skip(
                space - layout.len_of(n as nat),
            ) =~= self.header().control@.skip(at + space));
            assert(layout.holds(self.header().control@, at as int, m));
        }
        // The whole buffer is there for the next message.
        self.hdr.control_len = self.limit;
        self.hdr.has_control = self.had_control;
        self.cmsg = self.hdr.cmsg_nxt_hdr(&layout, at);
        self.hdr.set_control_len(&layout, self.len);
        proof {
            self.sent@ = ms.push(m);
        }
    }

    /// Finishes appending control messages to the buffer. The header stays as it is, which is also
    /// what it is when the encoder is dropped.
    pub fn finish(self)
        requires
            self.wf(),
        ensures
            *final(self.hdr) == self.header(),
            final(self.hdr).wf(),
            final(self.hdr).control_len == self.len,
            final(self.hdr).has_control == (self.had_control && !(self.layout.null_when_empty
                && self.len == 0)),
            self.layout.laid_out(final(self.hdr).control@, self.sent@, self.len as int),
    {
    }
}

/// A control message found in a buffer.
#[derive(Clone, Copy)]
pub struct ControlMessage {
    /// Where the message starts
    pub at: usize,
    /// The length in its header
    pub len: u64,
    pub level: i32,
    pub ty: i32,
}

impl ControlMessage {
    /// Whether this is what the header at `at` says.
    pub open spec fn read_from(self, layout: Layout, buf: Seq<u8>, at: int) -> bool {
        &&& self.at == at
        &&& self.len == layout.len_in(buf, at)
        &&& self.level == layout.level_in(buf, at)
        &&& self.ty == layout.type_in(buf, at)
    }

    /// Where the payload starts.
    pub fn cmsg_data(&self, layout: &Layout) -> (r: usize)
        requires
            layout.wf(),
            self.at + layout.data_offset() <= usize::MAX,
        ensures
            r == self.at + layout.data_offset(),
    {
        self.at + layout.payload_start()
    }
}

/// Walks the control messages of a received header.
pub struct Iter<'a> {
    pub hdr: &'a MsgHdr,
    pub layout: Layout,
    pub cmsg: Option<usize>,
}

impl<'a> Iter<'a> {
    pub open spec fn wf(self) -> bool {
        &&& self.layout.wf()
        &&& self.hdr.wf()
        &&& self.cmsg matches Some(at) ==> at + self.layout.header_len <= self.hdr.control_len
    }

    /// Where the walk stands.
    pub open spec fn cursor(self) -> Option<int> {
        match self.cmsg {
            Some(at) => Some(at as int),
            None => None,
        }
    }

    /// The messages still to come, at most `most` of them.
    pub open spec fn rest(self, most: nat) -> Seq<Message> {
        self.layout.walk(
            self.hdr.control@,
            self.hdr.control_len as nat,
            self.cursor(),
            most,
        )
    }

    pub fn new(hdr: &'a MsgHdr, layout: Layout) -> (it: Self)
        requires
            hdr.wf(),
            layout.wf(),
        ensures
            it.wf(),
            it.hdr == hdr,
            it.layout == layout,
            it.cursor() == layout.first_at(hdr.control_len as nat),
            forall|most: nat| #[trigger] it.rest(most) == hdr.messages(layout, most),
    {
        let cmsg = hdr.cmsg_first_hdr(&layout);
        Iter { hdr, layout, cmsg }
    }

    /// The next control message, if there is one.
    pub fn next(&mut self) -> (r: Option<ControlMessage>)
        requires
            old(self).wf(),
        ensures
            final(self).wf(),
            final(self).hdr == old(self).hdr,
            final(self).layout == old(self).layout,
            ({
                let buf = old(self).hdr.control@;
                match old(self).cmsg {
                    None => r is None && final(self).cmsg is None,
                    Some(at) => {
                        &&& final(self).cursor() == old(self).layout.next_at(
                            buf,
                            old(self).hdr.control_len as nat,
                            at as int,
                        )
                        &&& if old(self).layout.stops_at_short && old(self).layout.len_in(
                            buf,
                            at as int,
                        ) < old(self).layout.header_len {
                            r is None
                        } else {
                            r matches Some(c) && c.read_from(old(self).layout, buf, at as int)
                        }
                    },
                }
            }),
            forall|most: nat|
                most > 0 ==> #[trigger] old(self).rest(most) == match r {
                    None => Seq::<Message>::empty(),
                    Some(c) => seq![
                        old(self).layout.message_at(old(self).hdr.control@, c.at as int),
                    ] + final(self).rest((most - 1) as nat),
                },
    {
        let at: usize = match self.cmsg {
            None => {
                return None;
            },
            Some(at) => at,
        };
        let current = self.hdr.control_message(&self.layout, at);
        self.cmsg = self.hdr.cmsg_nxt_hdr(&self.layout, at);
        if self.layout.stops_at_short && current.len < self.layout.header_len as u64 {
            return None;
        }
        Some(current)
    }
}

/// The payload of a control message that has one of `n` bytes.
pub fn decode<'a>(hdr: &'a MsgHdr, layout: &Layout, cmsg: &ControlMessage, n: usize) -> (payload:
    &'a [u8])
    requires
        layout.wf(),
        cmsg.len == layout.len_of(n as nat),
        cmsg.at + cmsg.len <= hdr.control.len(),
    ensures
        payload@ == hdr.control@.subrange(cmsg.at + layout.data_offset(), cmsg.at + cmsg.len),
        payload@.len() == n,
{
    let start: usize = cmsg.cmsg_data(layout);
    slice_subrange(hdr.control.as_slice(), start, start + n)
}

/// Whether to warn that the kernel had more to say about a datagram than the buffer could hold:
/// the first time that `truncated_flag` is set. `warned` keeps whether that has happened.
pub fn warn_if_control_truncated(hdr: &MsgHdr, truncated_flag: i32, warned: &mut bool) -> (warn:
    bool)
    ensures
        warn <==> hdr.flags & truncated_flag != 0 && !*old(warned),
        *final(warned) <==> *old(warned) || hdr.flags & truncated_flag != 0,
{
    if hdr.flags & truncated_flag != 0 && !*warned {
        *warned = true;
        true
    } else {
        false
    }
}

/// What was encoded is found again: walking a buffer in which messages were stored one after the
/// other yields those messages, in order, and no others. Where the layout has the header of a
/// following message leave bytes free, a message without payload that ends the buffer, after
/// others, is not found.
pub proof fn law_encoded_messages_are_found(
    layout: Layout,
    hdr: MsgHdr,
    ms: Seq<Message>,
    most: nat,
)
    requires
        layout.wf(),
        hdr.wf(),
        layout.laid_out(hdr.control@, ms, hdr.control_len as int),
        layout.end_slack == 0 || ms.len() <= 1 || ms.last().payload.len() > 0,
        ms.len() <= most,
    ensures
        hdr.messages(layout, most) == ms,
{
    layout.lemma_data_offset();
    if ms.len() > 0 {
        layout.lemma_offset_monotone(ms, 0, ms.len() as int);
        lemma_walk_from(layout, hdr.control@, ms, hdr.control_len as nat, 0, most);
        assert(ms.skip(0) =~= ms);
    } else {
        assert(hdr.messages(layout, most) =~= ms);
    }
}

/// After the message with index `i` comes the next one, and none after the last.
proof fn lemma_next_of(layout: Layout, buf: Seq<u8>, ms: Seq<Message>, end: nat, i: int)
    requires
        layout.wf(),
        layout.laid_out(buf, ms, end as int),
        layout.end_slack == 0 || ms.len() <= 1 || ms.last().payload.len() > 0,
        0 <= i < ms.len(),
    ensures
        layout.next_at(buf, end, layout.offset_of(ms, i) as int) == if i + 1 < ms.len() {
            Some(layout.offset_of(ms, i + 1) as int)
        } else {
            None
        },
        layout.len_in(buf, layout.offset_of(ms, i) as int) >= layout.header_len,
        layout.message_at(buf, layout.offset_of(ms, i) as int) == ms[i],
{
    let at = layout.offset_of(ms, i) as int;
    let n = ms[i].payload.len();
    assert(layout.holds_nth(buf, ms, i));
    assert(layout.header_len <= layout.data_offset()) by {
        layout.lemma_data_offset();
    }
    assert(layout.space_of(n) == round_up(layout.len_of(n), layout.unit as nat)) by {
        layout.lemma_space_of(n);
    }
    let next = layout.offset_of(ms, i + 1);
    assert(next == at + layout.space_of(n));
    if i + 1 < ms.len() {
        let m = ms[i + 1].payload.len();
        assert(m <= round_up(m, layout.unit as nat)) by {
            lemma_round_up(m, layout.unit as nat);
        }
        assert(next + layout.space_of(m) <= end) by {
            layout.lemma_offset_monotone(ms, i + 1, ms.len() as int);
        }
        if i + 2 < ms.len() {
            assert(layout.offset_of(ms, i + 2) == next + layout.space_of(m));
            layout.lemma_offset_monotone(ms, i + 2, ms.len() as int);
        }
    } else {
        assert(next == end);
    }
}

proof fn lemma_walk_from(
    layout: Layout,
    buf: Seq<u8>,
    ms: Seq<Message>,
    end: nat,
    i: int,
    most: nat,
)
    requires
        layout.wf(),
        layout.laid_out(buf, ms, end as int),
        layout.end_slack == 0 || ms.len() <= 1 || ms.last().payload.len() > 0,
        0 <= i < ms.len(),
        ms.len() - i <= most,
    ensures
        layout.walk(buf, end, Some(layout.offset_of(ms, i) as int), most) == ms.skip(i),
    decreases ms.len() - i,
{
    let at = layout.offset_of(ms, i) as int;
    lemma_next_of(layout, buf, ms, end, i);
    let rest = layout.walk(buf, end, layout.next_at(buf, end, at), (most - 1) as nat);
    if i + 1 < ms.len() {
        lemma_walk_from(layout, buf, ms, end, i + 1, (most - 1) as nat);
    }
    assert(rest =~= ms.skip(i + 1));
    assert(seq![ms[i]] + rest =~= ms.skip(i));
}

/// Every payload that was encoded is aligned to what payloads are rounded to, counted from the
/// start of the buffer.
pub proof fn law_payloads_are_aligned(layout: Layout, ms: Seq<Message>, i: int)
    requires
        layout.wf(),
        0 <= i <= ms.len(),
    ensures
        (layout.offset_of(ms, i) + layout.data_offset()) % layout.unit as nat == 0,
    decreases i,
{
    layout.lemma_data_offset();
    if i > 0 {
        law_payloads_are_aligned(layout, ms, i - 1);
        layout.lemma_space_of(ms[i - 1].payload.len());
        let before = layout.offset_of(ms, i - 1) + layout.data_offset();
        let space = layout.space_of(ms[i - 1].payload.len());
        lemma_multiples_add(before, space, layout.unit as nat);
        assert(layout.offset_of(ms, i) + layout.data_offset() == before + space);
    }
}

/// A message can be appended wherever the buffer has the space for it. Where the layout has the
/// header of a following message leave bytes free, that takes a payload.
pub proof fn law_push_needs_only_space<P>(e: Encoder<'_, P>, n: nat)
    requires
        e.wf(),
        e.len + e.layout.space_of(n) <= e.limit,
        0 < n || e.layout.end_slack == 0 || e.sent@.len() == 0,
        e.layout.len_of(n) < 0x1_0000_0000,
    ensures
        e.can_push(n),
{
    e.layout.lemma_data_offset();
    lemma_round_up(n, e.layout.unit as nat);
}

proof fn lemma_offset_bound(layout: Layout, ms: Seq<Message>, i: int, largest: nat)
    requires
        layout.wf(),
        0 <= i <= ms.len(),
        forall|j: int| 0 <= j < ms.len() ==> (#[trigger] ms[j]).payload.len() <= largest,
    ensures
        layout.offset_of(ms, i) <= i * layout.space_of(largest),
    decreases i,
{
    if i > 0 {
        lemma_offset_bound(layout, ms, i - 1, largest);
        lemma_round_up_monotone(ms[i - 1].payload.len(), largest, layout.unit as nat);
        let space = layout.space_of(largest) as int;
        assert(i * space == (i - 1) * space + space) by (nonlinear_arith);
    } else {
        assert(0 * layout.space_of(largest) == 0);
    }
}

/// A buffer with the space of `count` messages of the largest payload takes any `count` messages:
/// while fewer are in it, one more can be appended.
pub proof fn law_buffer_takes_counted_messages<P>(
    e: Encoder<'_, P>,
    count: nat,
    largest: nat,
    n: nat,
)
    requires
        e.wf(),
        count * e.layout.space_of(largest) <= e.limit,
        e.sent@.len() < count,
        forall|j: int| 0 <= j < e.sent@.len() ==> (#[trigger] e.sent@[j]).payload.len() <= largest,
        n <= largest,
        0 < n || e.layout.end_slack == 0 || e.sent@.len() == 0,
        e.layout.len_of(n) < 0x1_0000_0000,
    ensures
        e.can_push(n),
{
    let k = e.sent@.len() as int;
    let space = e.layout.space_of(largest) as int;
    lemma_offset_bound(e.layout, e.sent@, k, largest);
    lemma_round_up_monotone(n, largest, e.layout.unit as nat);
    assert(k * space + space <= count * space) by (nonlinear_arith)
        requires
            k + 1 <= count,
            space >= 0,
    ;
    law_push_needs_only_space(e, n);
}

/// Whenever an encoder is finished or dropped, the header is left with the space of the messages
/// that were appended in use, and walking it yields those messages. Without any there is no control
/// buffer either, where the layout asks for that; with some the buffer is as it was.
pub proof fn law_header_holds_what_was_appended<P>(e: Encoder<'_, P>, most: nat)
    requires
        e.wf(),
        has_resolved(e),
        e.sent@.len() <= most,
    ensures
        *final(e.hdr) == e.header(),
        e.header().control_len == e.layout.offset_of(e.sent@, e.sent@.len() as int),
        e.sent@.len() == 0 ==> e.header().control_len == 0 && e.header().has_control == (
        e.had_control && !e.layout.null_when_empty),
        e.sent@.len() > 0 ==> e.header().has_control == e.had_control,
        e.layout.end_slack == 0 || e.sent@.len() <= 1 || e.sent@.last().payload.len() > 0
            ==> e.header().messages(e.layout, most) == e.sent@,
{
    let ms = e.sent@;
    e.layout.lemma_data_offset();
    if ms.len() > 0 {
        e.layout.lemma_offset_monotone(ms, 0, ms.len() as int);
    }
    if e.layout.end_slack == 0 || ms.len() <= 1 || ms.last().payload.len() > 0 {
        law_encoded_messages_are_found(e.layout, e.header(), ms, most);
    }
}

/// Whether the bytes from `at` on are the header of a message with this level and type and a
/// payload of `n` bytes: the length where the layout has it, and the level and the type at the end.
pub open spec fn is_header_of(
    layout: Layout,
    buf: Seq<u8>,
    at: int,
    level: i32,
    ty: i32,
    n: nat,
) -> bool {
    let big = layout.big_endian;
    let end = at + layout.header_len;
    let len_at = at + layout.len_at;
    let len = layout.data_offset() + n;
    &&& buf.subrange(len_at, len_at + layout.len_width) == word_bytes(
        big,
        len,
        layout.len_width as nat,
    )
    &&& buf.subrange(end - 8, end - 4) == word_bytes(big, level as u32 as nat, 4)
    &&& buf.subrange(end - 4, end) == word_bytes(big, ty as u32 as nat, 4)
}

proof fn lemma_signed_word(x: u32, y: i32)
    requires
        x as i32 == y,
    ensures
        x == y as u32,
{
    assert(x as i32 as u32 == x) by (bit_vector);
}

/// What is stored of a message: its header, byte by byte, then its payload.
pub proof fn law_message_is_its_bytes(layout: Layout, buf: Seq<u8>, at: int, m: Message)
    requires
        layout.wf(),
        layout.holds(buf, at, m),
    ensures
        is_header_of(layout, buf, at, m.level, m.ty, m.payload.len()),
        buf.subrange(
            at + layout.data_offset(),
            at + layout.data_offset() + m.payload.len(),
        ) == m.payload,
{
    let big = layout.big_endian;
    let end = at + layout.header_len;
    let len_at = at + layout.len_at;
    layout.lemma_data_offset();
    lemma_byte_spans();
    let len_bytes = buf.subrange(len_at, len_at + layout.len_width);
    let level_bytes = buf.subrange(end - 8, end - 4);
    let type_bytes = buf.subrange(end - 4, end);
    law_bytes_follow_from_the_number(big, len_bytes);
    law_bytes_follow_from_the_number(big, level_bytes);
    law_bytes_follow_from_the_number(big, type_bytes);
    lemma_word_value_bound(big, level_bytes);
    lemma_word_value_bound(big, type_bytes);
    lemma_signed_word(word_value(big, level_bytes) as u32, m.level);
    lemma_signed_word(word_value(big, type_bytes) as u32, m.ty);
}

/// An appended message is in the buffer behind those before it, and leaves them alone, and what is
/// behind its payload.
pub proof fn law_appended_message_is_its_bytes<P>(
    after: Encoder<'_, P>,
    before: Encoder<'_, P>,
    m: Message,
    i: int,
)
    requires
        before.wf(),
        appended(after, before, m),
    ensures
        is_header_of(
            before.layout,
            after.header().control@,
            before.len as int,
            m.level,
            m.ty,
            m.payload.len(),
        ),
        after.header().control@.subrange(
            before.len + before.layout.data_offset(),
            before.len + before.layout.data_offset() + m.payload.len(),
        ) == m.payload,
        before.len + before.layout.data_offset() + m.payload.len()
            <= after.header().control@.len(),
        after.header().control@.len() == before.header().control@.len(),
        0 <= i < before.len ==> after.header().control@[i] == before.header().control@[i],
        before.len + before.layout.data_offset() + m.payload.len() <= i
            < before.header().control@.len() ==> after.header().control@[i]
            == before.header().control@[i],
        ({
            // Where `i` is in the header of the new message.
            let k = i - before.len;
            let layout = before.layout;
            0 <= k < layout.data_offset() && (k < layout.len_at || layout.len_at + layout.len_width
                <= k < layout.header_len - 8 || layout.header_len <= k)
                ==> after.header().control@[i] == before.header().control@[i]
        }),
        after.header().flags == before.header().flags,
        after.layout == before.layout,
        after.platform == before.platform,
        after.limit == before.limit,
        after.had_control == before.had_control,
        after.wf(),
        after.len == before.len + before.layout.space_of(m.payload.len()),
        after.header().control_len == after.len,
        after.header().has_control == before.had_control,
        after.sent@ == before.sent@.push(m),
{
    let layout = before.layout;
    let buf = after.header().control@;
    let k = before.sent@.len() as int;
    layout.lemma_offset_push(before.sent@, m, k);
    layout.lemma_data_offset();
    lemma_round_up(m.payload.len(), layout.unit as nat);
    assert(layout.holds_nth(buf, after.sent@, k));
    law_message_is_its_bytes(layout, buf, before.len as int, m);
    if 0 <= i < before.len {
        assert(buf.take(before.len as int)[i] == buf[i]);
        assert(before.header().control@.take(before.len as int)[i] == before.header().control@[i]);
    }
    let end = before.len + layout.len_of(m.payload.len());
    if end <= i < buf.len() {
        assert(buf.skip(end)[i - end] == buf[i]);
        assert(before.header().control@.skip(end)[i - end] == before.header().control@[i]);
    }
}

/// A message that is appended is in the buffer with its level, its type and its payload.
pub proof fn law_push_stores_the_message<'a, P>(
    e: &mut Encoder<'a, P>,
    level: i32,
    ty: i32,
    payload: &[u8],
)
    requires
        old(e).wf(),
        call_ensures(Encoder::<'a, P>::push, (e, level, ty, payload), ()),
    ensures
        is_header_of(
            old(e).layout,
            final(e).header().control@,
            old(e).len as int,
            level,
            ty,
            payload@.len(),
        ),
        final(e).header().control@.subrange(
            old(e).len + old(e).layout.data_offset(),
            old(e).len + old(e).layout.data_offset() + payload@.len(),
        ) == payload@,
        final(e).header().control_len == old(e).len + old(e).layout.space_of(payload@.len()),
{
    law_appended_message_is_its_bytes(
        *final(e),
        *old(e),
        Message { level, ty, payload: payload@ },
        0,
    );
}

/// The sizes of a message: its payload starts at the first multiple of the unit after the header,
/// its length counts from there, and its space is the length up to the next multiple of the unit.
pub proof fn law_sizes_follow_from_the_header(
    layout: Layout,
    n: usize,
    start: usize,
    len: usize,
    space: usize,
)
    requires
        layout.wf(),
        call_ensures(Layout::payload_start, (&layout,), start),
        call_ensures(Layout::cmsg_len, (&layout, n), len),
        call_ensures(Layout::cmsg_space, (&layout, n), space),
    ensures
        start as nat % layout.unit as nat == 0,
        layout.header_len <= start < layout.header_len + layout.unit,
        start == layout.data_offset(),
        len == start + n,
        len == layout.len_of(n as nat),
        space as nat % layout.unit as nat == 0,
        len <= space < len + layout.unit,
        space == layout.space_of(n as nat),
{
    layout.lemma_data_offset();
    layout.lemma_space_of(n as nat);
}

/// Rounding up gives the least multiple that is not smaller.
pub proof fn law_rounding_gives_the_next_multiple(n: usize, unit: usize, r: usize)
    requires
        unit == 4 || unit == 8 || unit == 16,
        call_ensures(align_to, (n, unit), r),
    ensures
        r as nat % unit as nat == 0,
        n <= r < n + unit,
{
    lemma_round_up(n as nat, unit as nat);
}

/// The first message is at the start of the buffer where a header fits what is in use. The next one
/// is where the space of a message ends, unless the message is shorter than the layout asks for or
/// the header of the next one does not fit what is in use.
pub proof fn law_walk_goes_from_message_to_message(
    hdr: MsgHdr,
    layout: Layout,
    at: usize,
    first: Option<usize>,
    next: Option<usize>,
    p: int,
)
    requires
        layout.wf(),
        call_ensures(MsgHdr::cmsg_first_hdr, (&hdr, &layout), first),
        call_ensures(MsgHdr::cmsg_nxt_hdr, (&hdr, &layout, at), next),
    ensures
        first == if layout.header_len <= hdr.control_len {
            Some(0usize)
        } else {
            None
        },
        ({
            let len_at = at + layout.len_at;
            let len = word_value(
                layout.big_endian,
                hdr.control@.subrange(len_at, len_at + layout.len_width),
            );
            // Whether a message could follow at `p`.
            let follows = {
                &&& len >= layout.min_len
                &&& at + len <= p < at + len + layout.unit
                &&& (p - at) % layout.unit as int == 0
                &&& p + layout.data_offset() + layout.end_slack <= hdr.control_len
            };
            next is Some && next->0 == p <==> follows
        }),
{
    let len_at = at + layout.len_at;
    let len = word_value(
        layout.big_endian,
        hdr.control@.subrange(len_at, len_at + layout.len_width),
    );
    assert(len == layout.len_in(hdr.control@, at as int));
    let step = round_up(len, layout.unit as nat);
    lemma_round_up(len, layout.unit as nat);
    let unit = layout.unit as int;
    assert((p - at) % unit == 0 && len <= p - at < len + unit ==> p - at == step) by {
        if (p - at) % unit == 0 && len <= p - at < len + unit {
            lemma_one_multiple(p - at, step as int, unit);
        }
    }
}

proof fn lemma_one_multiple(a: int, b: int, unit: int)
    requires
        unit == 4 || unit == 8 || unit == 16,
        a % unit == 0,
        b % unit == 0,
        -unit < a - b < unit,
    ensures
        a == b,
{
    if unit == 4 {
        assert(a % 4 == 0 && b % 4 == 0);
    } else if unit == 8 {
        assert(a % 8 == 0 && b % 8 == 0);
    } else {
        assert(a % 16 == 0 && b % 16 == 0);
    }
}

/// What is read of a header is what its bytes stand for.
pub proof fn law_header_is_read_from_its_bytes(
    hdr: MsgHdr,
    layout: Layout,
    at: usize,
    c: ControlMessage,
    n: nat,
    level: i32,
    ty: i32,
)
    requires
        layout.wf(),
        at + layout.header_len <= hdr.control@.len(),
        layout.data_offset() + n < 0x1_0000_0000,
        call_ensures(MsgHdr::control_message, (&hdr, &layout, at), c),
        is_header_of(layout, hdr.control@, at as int, level, ty, n),
    ensures
        c.at == at,
        c.len == layout.data_offset() + n,
        c.level == level,
        c.ty == ty,
{
    let big = layout.big_endian;
    lemma_byte_spans();
    law_word_reads_back(big, layout.data_offset() + n, layout.len_width as nat);
    law_word_reads_back(big, level as u32 as nat, 4);
    law_word_reads_back(big, ty as u32 as nat, 4);
    assert(level as u32 as i32 == level) by (bit_vector);
    assert(ty as u32 as i32 == ty) by (bit_vector);
}

/// A payload that is decoded is the bytes between the header, with its padding, and the end of the
/// message.
pub proof fn law_decoded_payload_is_its_bytes<'a>(
    hdr: &'a MsgHdr,
    layout: &Layout,
    c: &ControlMessage,
    n: usize,
    payload: &'a [u8],
    i: int,
)
    requires
        layout.wf(),
        c.len == layout.data_offset() + n,
        c.at + c.len <= hdr.control@.len(),
        call_ensures(decode, (hdr, layout, c, n), payload),
    ensures
        payload@.len() == n,
        0 <= i < n ==> payload@[i] == hdr.control@[c.at + layout.data_offset() + i],
{
}

/// A walk yields the message it stands at and goes on behind it; it ends where it stands at none,
/// and at a message shorter than its header where the layout asks for that.
pub proof fn law_iter_yields_what_it_stands_at<'a>(it: &mut Iter<'a>, r: Option<ControlMessage>)
    requires
        old(it).wf(),
        call_ensures(Iter::<'a>::next, (it,), r),
    ensures
        ({
            let layout = old(it).layout;
            let buf = old(it).hdr.control@;
            match old(it).cmsg {
                None => r is None && final(it).cmsg is None,
                Some(at) => {
                    let len_at = at + layout.len_at;
                    let len = word_value(
                        layout.big_endian,
                        buf.subrange(len_at, len_at + layout.len_width),
                    );
                    &&& r is None <==> layout.stops_at_short && len < layout.header_len
                    &&& r matches Some(c) ==> c.at == at && c.len == len
                },
            }
        }),
        final(it).hdr == old(it).hdr,
        final(it).layout == old(it).layout,
{
}

/// Of any number of truncated messages one is warned of: a warning is given only where the flag is
/// set, it is given at the first, and after it there is none.
pub proof fn law_truncation_is_warned_of_once(
    first: &MsgHdr,
    second: &MsgHdr,
    flag: i32,
    a: &mut bool,
    b: &mut bool,
    warned_first: bool,
    warned_second: bool,
)
    requires
        call_ensures(warn_if_control_truncated, (first, flag, a), warned_first),
        call_ensures(warn_if_control_truncated, (second, flag, b), warned_second),
        *old(b) == *final(a),
    ensures
        !(warned_first && warned_second),
        warned_first ==> first.flags & flag != 0,
        warned_second ==> second.flags & flag != 0,
        !*old(a) ==> (warned_first <==> first.flags & flag != 0),
        !*old(a) ==> (warned_first || warned_second <==> first.flags & flag != 0 || second.flags
            & flag != 0),
        *old(a) ==> !warned_first && !warned_second,
{
}

} // verus!
