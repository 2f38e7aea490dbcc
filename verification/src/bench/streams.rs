//! The transfer of a benchmark stream.

use bytes::Bytes;
use vstd::prelude::*;

use super::flood::{lemma_payload_bytes_add, lemma_payload_bytes_monotone, payload_bytes};
use crate::payload::{bytes_view, from_vec, prefix};

verus! {

/// How many bytes are handed to the stream at once.
pub const CHUNK_LEN: usize = 1048576;

/// What every byte sent on a stream is.
pub const STREAM_BYTE: u8 = 0xAB;

/// `n` bytes of what is sent on a stream.
pub open spec fn stream_bytes(n: nat) -> Seq<u8> {
    Seq::new(n, |i: int| STREAM_BYTE)
}

/// How long the next chunk is while `left` bytes have to be sent.
pub open spec fn next_len(left: nat) -> nat {
    if left < CHUNK_LEN {
        left
    } else {
        CHUNK_LEN as nat
    }
}

/// The chunks in which `left` bytes are sent.
pub open spec fn chunks(left: nat) -> Seq<Seq<u8>>
    decreases left,
{
    if left == 0 {
        Seq::empty()
    } else {
        seq![stream_bytes(next_len(left))] + chunks((left - next_len(left)) as nat)
    }
}

/// The data that remains to be sent on a stream: full chunks, then the rest.
pub struct StreamData {
    /// A full chunk
    pub chunk: Bytes,
    pub full_chunks: u64,
    pub remaining: usize,
}

impl StreamData {
    pub open spec fn wf(self) -> bool {
        &&& bytes_view(self.chunk) == stream_bytes(CHUNK_LEN as nat)
        &&& self.remaining < CHUNK_LEN
    }

    /// How many bytes have to be sent.
    pub open spec fn left(self) -> nat {
        self.full_chunks as nat * CHUNK_LEN as nat + self.remaining as nat
    }

    /// The next chunk to send, until there is none.
    pub fn next_chunk(&mut self) -> (r: Option<Bytes>)
        requires
            old(self).wf(),
        ensures
            final(self).wf(),
            r is None <==> old(self).left() == 0,
            match r {
                None => final(self).left() == 0,
                Some(chunk) => {
                    &&& bytes_view(chunk) == stream_bytes(next_len(old(self).left()))
                    &&& final(self).left() == old(self).left() - next_len(old(self).left())
                },
            },
            chunks(old(self).left()) == match r {
                None => Seq::empty(),
                Some(chunk) => seq![bytes_view(chunk)] + chunks(final(self).left()),
            },
    {
        if self.full_chunks > 0 {
            self.full_chunks -= 1;
            Some(self.chunk.clone())
        } else if self.remaining != 0 {
            let rest = prefix(&self.chunk, self.remaining);
            assert(bytes_view(rest) =~= stream_bytes(self.remaining as nat));
            self.remaining = 0;
            Some(rest)
        } else {
            None
        }
    }
}

/// The data of a stream of `stream_size` bytes.
pub fn send_data_on_stream(stream_size: u64) -> (d: StreamData)
    ensures
        d.wf(),
        d.left() == stream_size,
        d.full_chunks == stream_size / CHUNK_LEN as u64,
        d.remaining == stream_size % CHUNK_LEN as u64,
{
    let mut data: Vec<u8> = Vec::new();
    data.resize(CHUNK_LEN, STREAM_BYTE);
    assert(data@ =~= stream_bytes(CHUNK_LEN as nat));
    StreamData {
        chunk: from_vec(data),
        full_chunks: stream_size / CHUNK_LEN as u64,
        remaining: (stream_size % CHUNK_LEN as u64) as usize,
    }
}

/// How much has been read from a stream.
pub struct StreamReader {
    pub read: usize,
}

impl StreamReader {
    /// Nothing has been read yet.
    pub fn new() -> (r: Self)
        ensures
            r.read == 0,
    {
        StreamReader { read: 0 }
    }

    /// Counts a chunk that was read on its own.
    pub fn add_chunk(&mut self, chunk: &Bytes)
        requires
            old(self).read + bytes_view(*chunk).len() <= usize::MAX,
        ensures
            final(self).read == old(self).read + bytes_view(*chunk).len(),
    {
        self.read += chunk.len();
    }

    /// Counts the first `n` of the chunks that one call filled.
    pub fn add_chunks(&mut self, bufs: &Vec<Bytes>, n: usize)
        requires
            n <= bufs@.len(),
            old(self).read + payload_bytes(bufs@.take(n as int)) <= usize::MAX,
        ensures
            final(self).read == old(self).read + payload_bytes(bufs@.take(n as int)),
    {
        let mut i: usize = 0;
        while i < n
            invariant
                i <= n <= bufs@.len(),
                old(self).read + payload_bytes(bufs@.take(n as int)) <= usize::MAX,
                self.read == old(self).read + payload_bytes(bufs@.take(i as int)),
            decreases n - i,
        {
            proof {
                lemma_payload_bytes_monotone(bufs@, i + 1, n as int);
                assert(bufs@.take(i + 1).drop_last() =~= bufs@.take(i as int));
            }
            self.add_chunk(&bufs[i]);
            i += 1;
        }
    }
}

/// All chunks together, in order.
pub open spec fn joined(chunks: Seq<Seq<u8>>) -> Seq<u8>
    decreases chunks.len(),
{
    if chunks.len() == 0 {
        Seq::empty()
    } else {
        chunks[0] + joined(chunks.drop_first())
    }
}

/// The chunks of a stream add up to the bytes that were asked for, and none of them is empty or
/// longer than a full chunk.
pub proof fn law_chunks_make_up_the_stream(stream_size: nat)
    ensures
        joined(chunks(stream_size)) == stream_bytes(stream_size),
        forall|i: int|
            0 <= i < chunks(stream_size).len() ==> 0 < (#[trigger] chunks(stream_size)[i]).len()
                <= CHUNK_LEN,
    decreases stream_size,
{
    if stream_size == 0 {
        assert(joined(chunks(0)) =~= stream_bytes(0));
    } else {
        let n = next_len(stream_size);
        let rest = (stream_size - n) as nat;
        law_chunks_make_up_the_stream(rest);
        let all = chunks(stream_size);
        assert(all.drop_first() =~= chunks(rest));
        assert(all[0] == stream_bytes(n));
        assert(stream_bytes(n) + stream_bytes(rest) =~= stream_bytes(stream_size));
        assert forall|i: int| 0 <= i < all.len() implies 0 < (#[trigger] all[i]).len()
            <= CHUNK_LEN by {
            if i > 0 {
                assert(all[i] == chunks(rest)[i - 1]);
            }
        }
    }
}

/// A reader that is handed the chunks of a stream counts the bytes that were asked for.
pub proof fn law_reader_counts_the_stream(stream_size: nat, read: Seq<Bytes>)
    requires
        read.len() == chunks(stream_size).len(),
        forall|i: int|
            0 <= i < read.len() ==> bytes_view(#[trigger] read[i]) == chunks(stream_size)[i],
    ensures
        payload_bytes(read) == stream_size,
    decreases stream_size,
{
    if stream_size > 0 {
        let n = next_len(stream_size);
        let rest = (stream_size - n) as nat;
        let all = chunks(stream_size);
        assert(all.drop_first() =~= chunks(rest));
        let first = seq![read[0]];
        let tail = read.drop_first();
        assert forall|i: int| 0 <= i < tail.len() implies bytes_view(#[trigger] tail[i]) == chunks(
            rest,
        )[i] by {
            assert(tail[i] == read[i + 1]);
            assert(chunks(rest)[i] == all[i + 1]);
        }
        law_reader_counts_the_stream(rest, tail);
        assert(read =~= first + tail);
        lemma_payload_bytes_add(first, tail);
        assert(bytes_view(read[0]) == all[0]);
        assert(first.drop_last() =~= Seq::<Bytes>::empty());
        assert(payload_bytes(first.drop_last()) == 0);
        assert(payload_bytes(first) == n);
    }
}

/// A stream is sent in full chunks of a mebibyte, and what is left over in a last, shorter one.
pub proof fn law_only_the_last_chunk_is_short(stream_size: nat, i: int)
    requires
        0 <= i < chunks(stream_size).len(),
    ensures
        i < chunks(stream_size).len() - 1 ==> chunks(stream_size)[i].len() == 1_048_576,
        chunks(stream_size).len() * 1_048_576 >= stream_size,
        (chunks(stream_size).len() - 1) * 1_048_576 < stream_size,
        forall|k: int|
            0 <= k < chunks(stream_size)[i].len() ==> #[trigger] chunks(stream_size)[i][k] == 0xAB,
    decreases stream_size,
{
    let all = chunks(stream_size);
    let rest = (stream_size - next_len(stream_size)) as nat;
    assert(all.drop_first() =~= chunks(rest));
    assert(all.len() == 1 + chunks(rest).len());
    assert(all[0] == stream_bytes(next_len(stream_size)));
    if rest == 0 {
        assert(chunks(rest).len() == 0);
    } else {
        assert(chunks(rest).len() > 0);
        if i > 0 {
            law_only_the_last_chunk_is_short(rest, i - 1);
            assert(all[i] == chunks(rest)[i - 1]);
        } else {
            law_only_the_last_chunk_is_short(rest, 0);
        }
    }
}

/// Sending hands out what is left, a full chunk at a time, until nothing is.
pub proof fn law_chunks_are_handed_out_until_none_is_left(
    stream_size: u64,
    made: StreamData,
    d: &mut StreamData,
    r: Option<Bytes>,
    i: int,
)
    requires
        old(d).wf(),
        call_ensures(send_data_on_stream, (stream_size,), made),
        call_ensures(StreamData::next_chunk, (d,), r),
    ensures
        made.wf(),
        made.full_chunks * 1_048_576 + made.remaining == stream_size,
        made.remaining < 1_048_576,
        ({
            let before = old(d).full_chunks * 1_048_576 + old(d).remaining;
            let after = final(d).full_chunks * 1_048_576 + final(d).remaining;
            &&& r is None <==> before == 0
            &&& r is None ==> after == 0
            &&& r matches Some(chunk) ==> {
                &&& bytes_view(chunk).len() + after == before
                &&& bytes_view(chunk).len() == 1_048_576 || bytes_view(chunk).len() < 1_048_576
                    && after == 0
                &&& 0 <= i < bytes_view(chunk).len() ==> bytes_view(chunk)[i] == 0xAB
            }
        }),
{
}

/// What was read is the sum of what each read gave.
pub proof fn law_reads_add_up(
    one: &mut StreamReader,
    chunk: &Bytes,
    many: &mut StreamReader,
    bufs: &Vec<Bytes>,
    n: usize,
)
    requires
        call_ensures(StreamReader::add_chunk, (one, chunk), ()),
        call_ensures(StreamReader::add_chunks, (many, bufs, n), ()),
    ensures
        final(one).read == old(one).read + bytes_view(*chunk).len(),
        final(many).read == old(many).read + payload_bytes(bufs@.take(n as int)),
{
}

} // verus!
