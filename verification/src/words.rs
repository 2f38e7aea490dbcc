//! Integers as bytes, in either byte order.

use vstd::prelude::*;

verus! {

/// The `n` lowest bytes of `v`, most significant first.
pub open spec fn be_bytes(v: nat, n: nat) -> Seq<u8>
    decreases n,
{
    if n == 0 {
        Seq::empty()
    } else {
        be_bytes(v / 256, (n - 1) as nat).push((v % 256) as u8)
    }
}

/// The `n` lowest bytes of `v`, least significant first.
pub open spec fn le_bytes(v: nat, n: nat) -> Seq<u8>
    decreases n,
{
    if n == 0 {
        Seq::empty()
    } else {
        seq![(v % 256) as u8] + le_bytes(v / 256, (n - 1) as nat)
    }
}

/// The number that a sequence of bytes stands for, the first being the most significant.
pub open spec fn be_value(s: Seq<u8>) -> nat
    decreases s.len(),
{
    if s.len() == 0 {
        0
    } else {
        be_value(s.drop_last()) * 256 + s.last() as nat
    }
}

/// The number that a sequence of bytes stands for, the first being the least significant.
pub open spec fn le_value(s: Seq<u8>) -> nat
    decreases s.len(),
{
    if s.len() == 0 {
        0
    } else {
        s[0] as nat + 256 * le_value(s.drop_first())
    }
}

/// `256` to the power of `n`.
pub open spec fn byte_span(n: nat) -> nat
    decreases n,
{
    if n == 0 {
        1
    } else {
        256 * byte_span((n - 1) as nat)
    }
}

/// The `n` lowest bytes of `v` in the given order.
pub open spec fn word_bytes(big_endian: bool, v: nat, n: nat) -> Seq<u8> {
    if big_endian {
        be_bytes(v, n)
    } else {
        le_bytes(v, n)
    }
}

/// The number that a sequence of bytes stands for in the given order.
pub open spec fn word_value(big_endian: bool, s: Seq<u8>) -> nat {
    if big_endian {
        be_value(s)
    } else {
        le_value(s)
    }
}

pub proof fn lemma_be_bytes_len(v: nat, n: nat)
    ensures
        be_bytes(v, n).len() == n,
    decreases n,
{
    if n > 0 {
        lemma_be_bytes_len(v / 256, (n - 1) as nat);
    }
}

pub proof fn lemma_word_bytes_len(big_endian: bool, v: nat, n: nat)
    ensures
        word_bytes(big_endian, v, n).len() == n,
    decreases n,
{
    if n > 0 {
        lemma_word_bytes_len(big_endian, v / 256, (n - 1) as nat);
    }
}

/// The bytes of a number that fits them stand for that number again.
pub proof fn law_word_reads_back(big_endian: bool, v: nat, n: nat)
    requires
        v < byte_span(n),
    ensures
        word_value(big_endian, word_bytes(big_endian, v, n)) == v,
    decreases n,
{
    if n > 0 {
        let rest = (n - 1) as nat;
        law_word_reads_back(big_endian, v / 256, rest);
        let s = word_bytes(big_endian, v, n);
        if big_endian {
            assert(s.drop_last() =~= be_bytes(v / 256, rest));
        } else {
            assert(s.drop_first() =~= le_bytes(v / 256, rest));
        }
    }
}

pub proof fn lemma_word_value_bound(big_endian: bool, s: Seq<u8>)
    ensures
        word_value(big_endian, s) < byte_span(s.len()),
    decreases s.len(),
{
    if s.len() > 0 {
        if big_endian {
            lemma_word_value_bound(true, s.drop_last());
        } else {
            lemma_word_value_bound(false, s.drop_first());
        }
    }
}

pub proof fn lemma_byte_spans()
    ensures
        byte_span(1) == 0x100,
        byte_span(2) == 0x1_0000,
        byte_span(4) == 0x1_0000_0000,
        byte_span(8) == 0x1_0000_0000_0000_0000,
{
    reveal_with_fuel(byte_span, 9);
}

/// `buf` with the bytes from `at` on replaced by `s`.
pub open spec fn overwritten(buf: Seq<u8>, at: int, s: Seq<u8>) -> Seq<u8> {
    Seq::new(
        buf.len(),
        |i: int|
            if at <= i < at + s.len() {
                s[i - at]
            } else {
                buf[i]
            },
    )
}

/// Replaces the `n` bytes from `at` on by those of `v`.
pub fn write_word(buf: &mut Vec<u8>, at: usize, n: usize, v: u64, big_endian: bool)
    requires
        at + n <= old(buf).len(),
    ensures
        final(buf)@ == overwritten(
            old(buf)@,
            at as int,
            word_bytes(big_endian, v as nat, n as nat),
        ),
    decreases n,
{
    proof {
        lemma_word_bytes_len(big_endian, v as nat, n as nat);
    }
    if n > 0 {
        proof {
            lemma_word_bytes_len(big_endian, v as nat / 256, (n - 1) as nat);
        }
        let low: u8 = (v % 256) as u8;
        if big_endian {
            write_word(buf, at, n - 1, v / 256, true);
            buf.set(at + n - 1, low);
        } else {
            write_word(buf, at + 1, n - 1, v / 256, false);
            buf.set(at, low);
        }
    }
    assert(buf@ =~= overwritten(
        old(buf)@,
        at as int,
        word_bytes(big_endian, v as nat, n as nat),
    ));
}

/// The number that the `n` bytes from `at` on stand for.
pub fn read_word(buf: &Vec<u8>, at: usize, n: usize, big_endian: bool) -> (v: u64)
    requires
        at + n <= buf.len(),
        n <= 8,
    ensures
        v == word_value(big_endian, buf@.subrange(at as int, at + n)),
    decreases n,
{
    let ghost s = buf@.subrange(at as int, at + n);
    if n == 0 {
        return 0;
    }
    proof {
        lemma_word_value_bound(big_endian, s);
        lemma_byte_spans();
        reveal_with_fuel(byte_span, 9);
    }
    if big_endian {
        assert(s.drop_last() =~= buf@.subrange(at as int, at + n - 1));
        let high: u64 = read_word(buf, at, n - 1, true);
        high * 256 + buf[at + n - 1] as u64
    } else {
        assert(s.drop_first() =~= buf@.subrange(at + 1, at + n));
        let high: u64 = read_word(buf, at + 1, n - 1, false);
        buf[at] as u64 + 256 * high
    }
}

/// Replaces the bytes from `at` on by `src`.
pub fn write_bytes(buf: &mut Vec<u8>, at: usize, src: &[u8])
    requires
        at + src@.len() <= old(buf).len(),
    ensures
        final(buf)@ == overwritten(old(buf)@, at as int, src@),
{
    let n: usize = src.len();
    let mut i: usize = 0;
    while i < n
        invariant
            i <= n == src@.len(),
            at + n <= buf.len(),
            buf@.len() == old(buf)@.len(),
            buf@ =~= overwritten(old(buf)@, at as int, src@.take(i as int)),
        decreases n - i,
    {
        buf.set(at + i, src[i]);
        i += 1;
    }
    assert(src@.take(n as int) =~= src@);
}

/// The `n` lowest bytes of `v` in the given order.
pub fn word_to_vec(v: u64, n: usize, big_endian: bool) -> (r: Vec<u8>)
    requires
        n <= 8,
    ensures
        r@ == word_bytes(big_endian, v as nat, n as nat),
{
    let mut r: Vec<u8> = Vec::new();
    r.resize(n, 0u8);
    write_word(&mut r, 0, n, v, big_endian);
    proof {
        lemma_word_bytes_len(big_endian, v as nat, n as nat);
    }
    assert(r@ =~= word_bytes(big_endian, v as nat, n as nat));
    r
}

/// The bytes of a number are its digits to the base of 256: with the least significant first, the
/// byte at `i` counts multiples of `256` to the power of `i`; otherwise they are in reverse.
pub proof fn law_bytes_are_the_digits(v: nat, n: nat, i: nat)
    requires
        i < n,
    ensures
        word_bytes(false, v, n).len() == n,
        word_bytes(true, v, n).len() == n,
        word_bytes(false, v, n)[i as int] == (v / byte_span(i)) % 256,
        word_bytes(true, v, n)[n - 1 - i] == (v / byte_span(i)) % 256,
        byte_span(0) == 1,
        byte_span(i + 1) == 256 * byte_span(i),
    decreases n,
{
    lemma_word_bytes_len(false, v, n);
    lemma_word_bytes_len(true, v, n);
    let rest = (n - 1) as nat;
    lemma_word_bytes_len(false, v / 256, rest);
    lemma_word_bytes_len(true, v / 256, rest);
    if i > 0 {
        let j = (i - 1) as nat;
        law_bytes_are_the_digits(v / 256, rest, j);
        lemma_byte_span_pos(j);
        vstd::arithmetic::div_mod::lemma_div_denominator(v as int, 256, byte_span(j) as int);
        assert(le_bytes(v, n)[i as int] == le_bytes(v / 256, rest)[j as int]);
        assert(be_bytes(v, n)[n - 1 - i] == be_bytes(v / 256, rest)[rest - 1 - j]);
        assert(byte_span(i) == 256 * byte_span(j));
    } else {
        assert(byte_span(0) == 1);
        vstd::arithmetic::div_mod::lemma_div_basics(v as int);
        assert(le_bytes(v, n)[0] == v % 256);
    }
}

proof fn lemma_byte_span_pos(n: nat)
    ensures
        byte_span(n) > 0,
    decreases n,
{
    if n > 0 {
        lemma_byte_span_pos((n - 1) as nat);
    }
}

/// Bytes are those of the number that they stand for.
pub proof fn law_bytes_follow_from_the_number(big_endian: bool, s: Seq<u8>)
    ensures
        word_bytes(big_endian, word_value(big_endian, s), s.len()) == s,
    decreases s.len(),
{
    if s.len() > 0 {
        let v = word_value(big_endian, s);
        if big_endian {
            let high = be_value(s.drop_last());
            law_bytes_follow_from_the_number(true, s.drop_last());
            assert(v == high * 256 + s.last());
            assert(v / 256 == high && v % 256 == s.last());
            assert(be_bytes(v, s.len()) =~= s);
        } else {
            let high = le_value(s.drop_first());
            law_bytes_follow_from_the_number(false, s.drop_first());
            assert(v == s[0] + 256 * high);
            assert(v / 256 == high && v % 256 == s[0]);
            assert(le_bytes(v, s.len()) =~= s);
        }
    } else {
        assert(word_bytes(big_endian, word_value(big_endian, s), 0) =~= s);
    }
}

/// Overwriting puts the new bytes where they belong and leaves all others alone.
pub proof fn law_overwriting_changes_only_its_range(buf: Seq<u8>, at: int, s: Seq<u8>, i: int)
    requires
        0 <= at,
        at + s.len() <= buf.len(),
        0 <= i < buf.len(),
    ensures
        overwritten(buf, at, s).len() == buf.len(),
        overwritten(buf, at, s).subrange(at, at + s.len()) == s,
        i < at || i >= at + s.len() ==> overwritten(buf, at, s)[i] == buf[i],
{
    assert(overwritten(buf, at, s).subrange(at, at + s.len()) =~= s);
}

} // verus!
