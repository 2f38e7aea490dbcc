//! DATAGRAM frames and the packet they are written into.

use bytes::Bytes;
use vstd::prelude::*;

use crate::payload::{as_slice, bytes_view};
use crate::words::{
    be_bytes, be_value, byte_span, law_bytes_are_the_digits, law_word_reads_back,
    lemma_be_bytes_len, lemma_byte_spans, word_bytes,
};

verus! {

/// An application datagram: the payload of a DATAGRAM frame.
pub struct Datagram {
    pub data: Bytes,
}

/// The most that framing adds to a datagram: the frame type and the longest length prefix.
pub const SIZE_BOUND: usize = 9;

/// The frame type of a DATAGRAM frame without a length prefix.
pub const DATAGRAM_TYPE: u8 = 0x30;

/// The first number too large for a variable-length integer.
pub const VARINT_BOUND: u64 = 0x4000_0000_0000_0000;

/// How many bytes the variable-length encoding of `v` takes.
pub open spec fn varint_size(v: nat) -> nat {
    if v < 0x40 {
        1
    } else if v < 0x4000 {
        2
    } else if v < 0x4000_0000 {
        4
    } else {
        8
    }
}

/// The variable-length encoding of `v`: its size is in the two highest bits of the first byte, as
/// a power of two, and `v` fills the rest, most significant byte first.
pub open spec fn varint_bytes(v: nat) -> Seq<u8> {
    if v < 0x40 {
        be_bytes(v, 1)
    } else if v < 0x4000 {
        be_bytes(0x4000 + v, 2)
    } else if v < 0x4000_0000 {
        be_bytes(0x8000_0000 + v, 4)
    } else {
        be_bytes((0xc000_0000_0000_0000 + v) as nat, 8)
    }
}

fn write_be(out: &mut Vec<u8>, v: u64, n: usize)
    requires
        n <= 8,
    ensures
        final(out)@ == old(out)@ + be_bytes(v as nat, n as nat),
    decreases n,
{
    if n > 0 {
        write_be(out, v / 256, n - 1);
        out.push((v % 256) as u8);
    }
    assert(out@ =~= old(out)@ + be_bytes(v as nat, n as nat));
}

impl Datagram {
    /// The payload length.
    pub open spec fn len(self) -> nat {
        bytes_view(self.data).len()
    }

    /// The frame that carries the datagram, with a length prefix if `length` is set.
    pub open spec fn encoded(self, length: bool) -> Seq<u8> {
        if length {
            seq![(DATAGRAM_TYPE + 1) as u8] + varint_bytes(self.len()) + bytes_view(self.data)
        } else {
            seq![DATAGRAM_TYPE] + bytes_view(self.data)
        }
    }

    pub proof fn lemma_encoded_len(self, length: bool)
        ensures
            self.encoded(length).len() == 1 + (if length {
                varint_size(self.len())
            } else {
                0
            }) + self.len(),
    {
        let v = self.len();
        lemma_be_bytes_len(v, 1);
        lemma_be_bytes_len(0x4000 + v, 2);
        lemma_be_bytes_len(0x8000_0000 + v, 4);
        lemma_be_bytes_len(0xc000_0000_0000_0000 + v, 8);
    }

    /// The size of the frame that carries the datagram.
    pub fn size(&self, length: bool) -> (n: usize)
        requires
            self.len() + SIZE_BOUND <= usize::MAX,
        ensures
            n == self.encoded(length).len(),
    {
        proof {
            self.lemma_encoded_len(length);
        }
        let len: usize = self.data.len();
        let prefix: usize = if !length {
            0
        } else if len < 0x40 {
            1
        } else if len < 0x4000 {
            2
        } else if len < 0x4000_0000 {
            4
        } else {
            8
        };
        1 + prefix + len
    }

    /// Appends the frame that carries the datagram.
    pub fn encode(&self, length: bool, out: &mut Vec<u8>)
        requires
            length ==> self.len() < VARINT_BOUND,
        ensures
            final(out)@ == old(out)@ + self.encoded(length),
    {
        let len: usize = self.data.len();
        if length {
            out.push(DATAGRAM_TYPE + 1);
            let v: u64 = len as u64;
            if v < 0x40 {
                write_be(out, v, 1);
            } else if v < 0x4000 {
                write_be(out, 0x4000 + v, 2);
            } else if v < 0x4000_0000 {
                write_be(out, 0x8000_0000 + v, 4);
            } else {
                write_be(out, 0xc000_0000_0000_0000 + v, 8);
            }
        } else {
            out.push(DATAGRAM_TYPE);
        }
        out.extend_from_slice(as_slice(&self.data));
        assert(out@ =~= old(out)@ + self.encoded(length));
    }
}

/// How many frames of each kind have been written.
pub struct FrameStats {
    pub datagram: u64,
}

/// A packet under construction.
pub struct PacketBuilder {
    /// What has been written so far
    pub buf: Vec<u8>,
    /// How long the packet may become with its frames
    pub limit: usize,
}

impl PacketBuilder {
    /// How many more bytes of frames the packet can take.
    pub open spec fn space(self) -> nat {
        if self.limit <= self.buf@.len() {
            0
        } else {
            (self.limit - self.buf@.len()) as nat
        }
    }

    /// How many more bytes of frames the packet can take.
    pub fn frame_space_remaining(&self) -> (n: usize)
        ensures
            n == self.space(),
    {
        self.limit.saturating_sub(self.buf.len())
    }

    /// Writes a DATAGRAM frame with a length prefix and counts it.
    pub fn write_frame(&mut self, datagram: Datagram, stat: &mut FrameStats)
        requires
            datagram.len() < VARINT_BOUND,
            old(stat).datagram < u64::MAX,
        ensures
            final(self).buf@ == old(self).buf@ + datagram.encoded(true),
            final(self).limit == old(self).limit,
            final(stat).datagram == old(stat).datagram + 1,
    {
        datagram.encode(true, &mut self.buf);
        stat.datagram += 1;
    }
}

/// A variable-length integer tells its own size, in the two highest bits of its first byte, reads
/// back as the number that was encoded, and is no longer than it has to be.
pub proof fn law_varint_reads_back(v: nat)
    requires
        v < VARINT_BOUND,
    ensures
        ({
            let b = varint_bytes(v);
            let tag = b[0] as nat / 64;
            let value = be_value(b);
            &&& b.len() == varint_size(v)
            &&& b.len() == 1 && tag == 0 && value == v && v < 0x40 || b.len() == 2 && tag == 1
                && value == 0x4000 + v && 0x40 <= v < 0x4000 || b.len() == 4 && tag == 2 && value
                == 0x8000_0000 + v && 0x4000 <= v < 0x4000_0000 || b.len() == 8 && tag == 3 && value
                == 0xc000_0000_0000_0000 + v && 0x4000_0000 <= v
        }),
{
    lemma_byte_spans();
    reveal_with_fuel(byte_span, 9);
    let (x, n) = if v < 0x40 {
        (v, 1nat)
    } else if v < 0x4000 {
        (0x4000 + v, 2nat)
    } else if v < 0x4000_0000 {
        (0x8000_0000 + v, 4nat)
    } else {
        ((0xc000_0000_0000_0000 + v) as nat, 8nat)
    };
    assert(varint_bytes(v) == word_bytes(true, x, n));
    law_word_reads_back(true, x, n);
    law_bytes_are_the_digits(x, n, (n - 1) as nat);
    assert(byte_span(7) == 0x100_0000_0000_0000);
    assert(byte_span(3) == 0x100_0000);
}

/// A frame with a length prefix is the frame type, the length as a variable-length integer and the
/// payload; one without is the frame type and the payload. The two types differ in the lowest bit.
/// Framing adds no more than its bound.
pub proof fn law_frame_holds_the_datagram(d: Datagram)
    requires
        d.len() < VARINT_BOUND,
    ensures
        ({
            let payload = bytes_view(d.data);
            let bare = d.encoded(false);
            let framed = d.encoded(true);
            let n = varint_bytes(payload.len()).len() as int;
            &&& bare.len() == 1 + payload.len()
            &&& bare[0] == 0x30
            &&& bare.skip(1) == payload
            &&& framed.len() == 1 + n + payload.len()
            &&& framed[0] == 0x31
            &&& framed.subrange(1, 1 + n) == varint_bytes(payload.len())
            &&& framed.skip(1 + n) == payload
            &&& 1 <= n <= 8
            &&& framed.len() <= payload.len() + SIZE_BOUND
        }),
{
    d.lemma_encoded_len(true);
    d.lemma_encoded_len(false);
    law_varint_reads_back(d.len());
    let payload = bytes_view(d.data);
    let n = varint_bytes(payload.len()).len() as int;
    assert(d.encoded(false).skip(1) =~= payload);
    assert(d.encoded(true).subrange(1, 1 + n) =~= varint_bytes(payload.len()));
    assert(d.encoded(true).skip(1 + n) =~= payload);
}

/// The bound of framing is reached by the largest datagrams: it is as small as it can be.
pub proof fn law_framing_bound_is_tight(d: Datagram)
    requires
        0x4000_0000 <= d.len() < VARINT_BOUND,
    ensures
        d.encoded(true).len() == d.len() + SIZE_BOUND,
        VARINT_BOUND == 0x4000_0000_0000_0000,
{
    d.lemma_encoded_len(true);
}

/// What a packet has left is what is missing to its limit.
pub proof fn law_packet_and_space_make_up_the_limit(p: PacketBuilder, n: usize)
    requires
        call_ensures(PacketBuilder::frame_space_remaining, (&p,), n),
    ensures
        if p.buf@.len() <= p.limit {
            p.buf@.len() + n == p.limit
        } else {
            n == 0
        },
{
}

} // verus!
