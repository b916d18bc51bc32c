//! The integer/primitive codec layer: the fixed-width big-endian wire form
//! of every integer width usable as a size prefix, and the fallible
//! narrowing conversions between a runtime length and a prefix value.

use vstd::prelude::*;

use crate::codec::{Decoded, Type};
use crate::errors::{Error, IoErrorKind, TryFromIntError};
use crate::io::{ByteSink, ByteSource};

verus! {

/// `256^w`: the number of values a big-endian encoding of `w` bytes can carry.
pub open spec fn pow256(w: int) -> int
    decreases w,
{
    if w <= 0 {
        1
    } else {
        256 * pow256(w - 1)
    }
}

/// The big-endian bytes of `v`, `w` bytes wide; the least significant byte
/// comes last.
pub open spec fn be_bytes(v: int, w: int) -> Seq<u8>
    decreases w,
{
    if w <= 0 {
        Seq::empty()
    } else {
        be_bytes(v / 256, w - 1).push((v % 256) as u8)
    }
}

/// The integer a big-endian byte sequence denotes.
pub open spec fn be_int(s: Seq<u8>) -> int
    decreases s.len(),
{
    if s.len() == 0 {
        0
    } else {
        256 * be_int(s.drop_last()) + s.last()
    }
}

pub proof fn lemma_pow256_pos(w: int)
    ensures
        pow256(w) >= 1,
    decreases w,
{
    if w > 0 {
        lemma_pow256_pos(w - 1);
    }
}

pub proof fn lemma_pow256_increases(a: int, b: int)
    requires
        a <= b,
    ensures
        pow256(a) <= pow256(b),
    decreases b - a,
{
    if a < b {
        lemma_pow256_increases(a, b - 1);
        lemma_pow256_pos(b - 1);
    }
}

pub proof fn lemma_pow256_values()
    ensures
        pow256(0) == 1,
        pow256(1) == 0x100,
        pow256(2) == 0x10000,
        pow256(3) == 0x1000000,
        pow256(4) == 0x100000000,
        pow256(5) == 0x10000000000,
        pow256(6) == 0x1000000000000,
        pow256(7) == 0x100000000000000,
        pow256(8) == 0x10000000000000000,
{
    reveal_with_fuel(pow256, 9);
}

pub proof fn lemma_be_bytes_len(v: int, w: int)
    requires
        0 <= w,
    ensures
        be_bytes(v, w).len() == w,
    decreases w,
{
    if w > 0 {
        lemma_be_bytes_len(v / 256, w - 1);
    }
}

pub proof fn lemma_be_int_bound(s: Seq<u8>)
    ensures
        0 <= be_int(s) < pow256(s.len() as int),
    decreases s.len(),
{
    if s.len() > 0 {
        lemma_be_int_bound(s.drop_last());
        let x = be_int(s.drop_last());
        let p = pow256(s.len() - 1);
        let y = s.last() as int;
        assert(256 * x + y < 256 * p && 0 <= 256 * x + y) by (nonlinear_arith)
            requires
                0 <= x < p,
                0 <= y < 256,
        ;
    }
}

/// Consuming one more byte multiplies the value read so far by 256 and adds
/// that byte.
pub proof fn lemma_be_int_step(s: Seq<u8>, i: int)
    requires
        0 <= i < s.len(),
    ensures
        be_int(s.take(i + 1)) == 256 * be_int(s.take(i)) + s[i],
{
    let t = s.take(i + 1);
    assert(t.drop_last() =~= s.take(i));
    assert(t.last() == s[i]);
}

/// Reading back the big-endian bytes of `v` recovers `v`.
pub proof fn lemma_be_round_trip(v: int, w: int)
    requires
        0 <= w,
        0 <= v < pow256(w),
    ensures
        be_int(be_bytes(v, w)) == v,
    decreases w,
{
    if w == 0 {
        assert(v == 0);
    } else {
        let q = v / 256;
        let r = v % 256;
        assert(0 <= q < pow256(w - 1) && 0 <= r < 256 && v == 256 * q + r) by (nonlinear_arith)
            requires
                0 <= v < 256 * pow256(w - 1),
                q == v / 256,
                r == v % 256,
                pow256(w - 1) >= 1,
        {
            lemma_pow256_pos(w - 1);
        }
        lemma_pow256_pos(w - 1);
        lemma_be_round_trip(q, w - 1);
        let bs = be_bytes(q, w - 1);
        assert(be_bytes(v, w) == bs.push(r as u8));
        assert(bs.push(r as u8).drop_last() =~= bs);
        assert(bs.push(r as u8).last() == r as u8);
    }
}

/// Reads `width` big-endian bytes from the source and returns the value
/// they denote, or an end-of-stream error when fewer bytes are left.
pub fn read_be(source: &mut ByteSource, width: usize) -> (r: Result<u64, Error>)
    requires
        width <= 8,
    ensures
        old(source).remaining().len() >= width ==> (r matches Ok(v)
            && v as int == be_int(old(source).remaining().take(width as int))
            && final(source).remaining() == old(source).remaining().skip(width as int)),
        old(source).remaining().len() < width ==> (r matches Err(e)
            && e == Error::Io(IoErrorKind::UnexpectedEof)),
{
    let ghost orig = source.remaining();
    let mut acc: u64 = 0;
    let mut i: usize = 0;
    proof {
        assert(orig.take(0) =~= Seq::<u8>::empty());
    }
    while i < width
        invariant
            orig == old(source).remaining(),
            width <= 8,
            i <= width,
            i <= orig.len(),
            source.remaining() == orig.skip(i as int),
            acc as int == be_int(orig.take(i as int)),
        decreases width - i,
    {
        proof {
            lemma_be_int_bound(orig.take(i as int));
            assert(orig.take(i as int).len() == i);
            lemma_pow256_increases(i as int, 7);
            lemma_pow256_values();
        }
        let b = match source.read_byte() {
            Ok(b) => b,
            Err(e) => {
                proof {
                    assert(orig.skip(i as int).len() == orig.len() - i);
                }
                return Err(e);
            },
        };
        proof {
            assert(orig.skip(i as int)[0] == orig[i as int]);
            lemma_be_int_step(orig, i as int);
            assert(orig.skip(i as int).skip(1) =~= orig.skip(i + 1));
        }
        acc = acc * 256 + (b as u64);
        i = i + 1;
    }
    Ok(acc)
}

/// Writes the `width`-byte big-endian form of `v` to the sink.
pub fn write_be(sink: &mut ByteSink, v: u64, width: usize)
    requires
        width <= 8,
        (v as int) < pow256(width as int),
    ensures
        final(sink)@ == old(sink)@ + be_bytes(v as int, width as int),
    decreases width,
{
    if width > 0 {
        proof {
            lemma_pow256_pos(width - 1);
            assert((v as int) / 256 < pow256(width - 1)) by (nonlinear_arith)
                requires
                    0 <= v as int,
                    (v as int) < 256 * pow256(width - 1),
                    pow256(width - 1) >= 1,
            ;
        }
        write_be(sink, v / 256, width - 1);
        sink.push((v % 256) as u8);
        proof {
            assert(final(sink)@ =~= old(sink)@ + be_bytes(v as int, width as int));
        }
    } else {
        proof {
            assert(sink@ =~= old(sink)@ + be_bytes(v as int, 0));
        }
    }
}

/// An integer type usable as a size prefix: it has a fixed big-endian wire
/// width and fallible narrowing conversions from and to a runtime length.
pub trait Integer: Sized + Copy {
    /// The value this integer denotes.
    spec fn to_int(self) -> int;

    /// The number of bytes of the wire form.
    spec fn width() -> int;

    /// The largest value the type can carry.
    spec fn max_val() -> int;

    /// The width is between one and eight bytes and determines the range.
    proof fn lemma_shape()
        ensures
            1 <= Self::width() <= 8,
            Self::max_val() + 1 == pow256(Self::width()),
    ;

    /// Every value lies within the type's range.
    proof fn lemma_range(self)
        ensures
            0 <= self.to_int() <= Self::max_val(),
    ;

    /// Reads one value of this type from its big-endian wire form.
    fn read_value(source: &mut ByteSource) -> (r: Result<Self, Error>)
        ensures
            old(source).remaining().len() >= Self::width() ==> (r matches Ok(v)
                && v.to_int() == be_int(old(source).remaining().take(Self::width()))
                && final(source).remaining() == old(source).remaining().skip(Self::width())),
            old(source).remaining().len() < Self::width() ==> (r matches Err(e)
                && e == Error::Io(IoErrorKind::UnexpectedEof)),
    ;

    /// Writes this value in its big-endian wire form.
    fn write_value(self, sink: &mut ByteSink)
        ensures
            final(sink)@ == old(sink)@ + be_bytes(self.to_int(), Self::width()),
    ;

    /// Narrows a runtime length into this type; a length beyond the type's
    /// range is a range error, never a silent truncation.
    fn from_len(n: usize) -> (r: Result<Self, Error>)
        ensures
            n <= Self::max_val() ==> (r matches Ok(v) && v.to_int() == n),
            n > Self::max_val() ==> (r matches Err(e) && e == Error::TryFromInt(
                TryFromIntError {},
            )),
    ;

    /// Widens this value into a runtime length; a value beyond the native
    /// length range is a range error.
    fn to_len(self) -> (r: Result<usize, Error>)
        ensures
            self.to_int() <= usize::MAX ==> (r matches Ok(n) && n == self.to_int()),
            self.to_int() > usize::MAX ==> (r matches Err(e) && e == Error::TryFromInt(
                TryFromIntError {},
            )),
    ;
}

impl Integer for u8 {
    open spec fn to_int(self) -> int {
        self as int
    }

    open spec fn width() -> int {
        1
    }

    open spec fn max_val() -> int {
        0xff
    }

    proof fn lemma_shape() {
        lemma_pow256_values();
    }

    proof fn lemma_range(self) {
    }

    fn read_value(source: &mut ByteSource) -> (r: Result<Self, Error>) {
        let v = read_be(source, 1)?;
        proof {
            lemma_be_int_bound(old(source).remaining().take(1));
            lemma_pow256_values();
        }
        Ok(v as u8)
    }

    fn write_value(self, sink: &mut ByteSink) {
        proof {
            lemma_pow256_values();
        }
        write_be(sink, self as u64, 1);
    }

    fn from_len(n: usize) -> (r: Result<Self, Error>) {
        if n <= 0xff {
            Ok(n as u8)
        } else {
            Err(Error::TryFromInt(TryFromIntError {}))
        }
    }

    fn to_len(self) -> (r: Result<usize, Error>) {
        Ok(self as usize)
    }
}

impl Integer for u16 {
    open spec fn to_int(self) -> int {
        self as int
    }

    open spec fn width() -> int {
        2
    }

    open spec fn max_val() -> int {
        0xffff
    }

    proof fn lemma_shape() {
        lemma_pow256_values();
    }

    proof fn lemma_range(self) {
    }

    fn read_value(source: &mut ByteSource) -> (r: Result<Self, Error>) {
        let v = read_be(source, 2)?;
        proof {
            lemma_be_int_bound(old(source).remaining().take(2));
            lemma_pow256_values();
        }
        Ok(v as u16)
    }

    fn write_value(self, sink: &mut ByteSink) {
        proof {
            lemma_pow256_values();
        }
        write_be(sink, self as u64, 2);
    }

    fn from_len(n: usize) -> (r: Result<Self, Error>) {
        if n <= 0xffff {
            Ok(n as u16)
        } else {
            Err(Error::TryFromInt(TryFromIntError {}))
        }
    }

    fn to_len(self) -> (r: Result<usize, Error>) {
        Ok(self as usize)
    }
}

impl Integer for u32 {
    open spec fn to_int(self) -> int {
        self as int
    }

    open spec fn width() -> int {
        4
    }

    open spec fn max_val() -> int {
        0xffffffff
    }

    proof fn lemma_shape() {
        lemma_pow256_values();
    }

    proof fn lemma_range(self) {
    }

    fn read_value(source: &mut ByteSource) -> (r: Result<Self, Error>) {
        let v = read_be(source, 4)?;
        proof {
            lemma_be_int_bound(old(source).remaining().take(4));
            lemma_pow256_values();
        }
        Ok(v as u32)
    }

    fn write_value(self, sink: &mut ByteSink) {
        proof {
            lemma_pow256_values();
        }
        write_be(sink, self as u64, 4);
    }

    fn from_len(n: usize) -> (r: Result<Self, Error>) {
        if n <= 0xffffffff {
            Ok(n as u32)
        } else {
            Err(Error::TryFromInt(TryFromIntError {}))
        }
    }

    fn to_len(self) -> (r: Result<usize, Error>) {
        Ok(self as usize)
    }
}

impl Integer for u64 {
    open spec fn to_int(self) -> int {
        self as int
    }

    open spec fn width() -> int {
        8
    }

    open spec fn max_val() -> int {
        0xffffffffffffffff
    }

    proof fn lemma_shape() {
        lemma_pow256_values();
    }

    proof fn lemma_range(self) {
    }

    fn read_value(source: &mut ByteSource) -> (r: Result<Self, Error>) {
        let v = read_be(source, 8)?;
        Ok(v)
    }

    fn write_value(self, sink: &mut ByteSink) {
        proof {
            lemma_pow256_values();
        }
        write_be(sink, self, 8);
    }

    fn from_len(n: usize) -> (r: Result<Self, Error>) {
        Ok(n as u64)
    }

    fn to_len(self) -> (r: Result<usize, Error>) {
        if self <= usize::MAX as u64 {
            Ok(self as usize)
        } else {
            Err(Error::TryFromInt(TryFromIntError {}))
        }
    }
}

impl Type for u8 {
    type Model = int;

    open spec fn m(&self) -> int {
        *self as int
    }

    open spec fn encodable(mv: int) -> bool {
        0 <= mv <= 0xff
    }

    open spec fn encoding(mv: int) -> Seq<u8> {
        be_bytes(mv, 1)
    }

    open spec fn decoded(s: Seq<u8>) -> Decoded<int> {
        if s.len() < 1 {
            Decoded::Fail(Error::Io(IoErrorKind::UnexpectedEof))
        } else {
            Decoded::Value(be_int(s.take(1)), 1)
        }
    }

    open spec fn prefix_overflow(&self) -> bool {
        false
    }

    proof fn lemma_decoded_len(s: Seq<u8>) {
    }

    proof fn lemma_round_trip(mv: int, rest: Seq<u8>) {
        lemma_pow256_values();
        lemma_be_bytes_len(mv, 1);
        assert((be_bytes(mv, 1) + rest).take(1) =~= be_bytes(mv, 1));
        lemma_be_round_trip(mv, 1);
    }

    proof fn lemma_decoded_prefix_eof(mv: int, s: Seq<u8>) {
        lemma_be_bytes_len(mv, 1);
    }

    fn read(source: &mut ByteSource) -> (r: Result<Self, Error>) {
        let v = read_be(source, 1)?;
        proof {
            lemma_be_int_bound(old(source).remaining().take(1));
            lemma_pow256_values();
        }
        Ok(v as u8)
    }

    fn write(&self, sink: &mut ByteSink) -> (r: Result<(), Error>) {
        proof {
            lemma_pow256_values();
        }
        write_be(sink, *self as u64, 1);
        Ok(())
    }
}

impl Type for u16 {
    type Model = int;

    open spec fn m(&self) -> int {
        *self as int
    }

    open spec fn encodable(mv: int) -> bool {
        0 <= mv <= 0xffff
    }

    open spec fn encoding(mv: int) -> Seq<u8> {
        be_bytes(mv, 2)
    }

    open spec fn decoded(s: Seq<u8>) -> Decoded<int> {
        if s.len() < 2 {
            Decoded::Fail(Error::Io(IoErrorKind::UnexpectedEof))
        } else {
            Decoded::Value(be_int(s.take(2)), 2)
        }
    }

    open spec fn prefix_overflow(&self) -> bool {
        false
    }

    proof fn lemma_decoded_len(s: Seq<u8>) {
    }

    proof fn lemma_round_trip(mv: int, rest: Seq<u8>) {
        lemma_pow256_values();
        lemma_be_bytes_len(mv, 2);
        assert((be_bytes(mv, 2) + rest).take(2) =~= be_bytes(mv, 2));
        lemma_be_round_trip(mv, 2);
    }

    proof fn lemma_decoded_prefix_eof(mv: int, s: Seq<u8>) {
        lemma_be_bytes_len(mv, 2);
    }

    fn read(source: &mut ByteSource) -> (r: Result<Self, Error>) {
        let v = read_be(source, 2)?;
        proof {
            lemma_be_int_bound(old(source).remaining().take(2));
            lemma_pow256_values();
        }
        Ok(v as u16)
    }

    fn write(&self, sink: &mut ByteSink) -> (r: Result<(), Error>) {
        proof {
            lemma_pow256_values();
        }
        write_be(sink, *self as u64, 2);
        Ok(())
    }
}

impl Type for u32 {
    type Model = int;

    open spec fn m(&self) -> int {
        *self as int
    }

    open spec fn encodable(mv: int) -> bool {
        0 <= mv <= 0xffffffff
    }

    open spec fn encoding(mv: int) -> Seq<u8> {
        be_bytes(mv, 4)
    }

    open spec fn decoded(s: Seq<u8>) -> Decoded<int> {
        if s.len() < 4 {
            Decoded::Fail(Error::Io(IoErrorKind::UnexpectedEof))
        } else {
            Decoded::Value(be_int(s.take(4)), 4)
        }
    }

    open spec fn prefix_overflow(&self) -> bool {
        false
    }

    proof fn lemma_decoded_len(s: Seq<u8>) {
    }

    proof fn lemma_round_trip(mv: int, rest: Seq<u8>) {
        lemma_pow256_values();
        lemma_be_bytes_len(mv, 4);
        assert((be_bytes(mv, 4) + rest).take(4) =~= be_bytes(mv, 4));
        lemma_be_round_trip(mv, 4);
    }

    proof fn lemma_decoded_prefix_eof(mv: int, s: Seq<u8>) {
        lemma_be_bytes_len(mv, 4);
    }

    fn read(source: &mut ByteSource) -> (r: Result<Self, Error>) {
        let v = read_be(source, 4)?;
        proof {
            lemma_be_int_bound(old(source).remaining().take(4));
            lemma_pow256_values();
        }
        Ok(v as u32)
    }

    fn write(&self, sink: &mut ByteSink) -> (r: Result<(), Error>) {
        proof {
            lemma_pow256_values();
        }
        write_be(sink, *self as u64, 4);
        Ok(())
    }
}

impl Type for u64 {
    type Model = int;

    open spec fn m(&self) -> int {
        *self as int
    }

    open spec fn encodable(mv: int) -> bool {
        0 <= mv <= 0xffffffffffffffff
    }

    open spec fn encoding(mv: int) -> Seq<u8> {
        be_bytes(mv, 8)
    }

    open spec fn decoded(s: Seq<u8>) -> Decoded<int> {
        if s.len() < 8 {
            Decoded::Fail(Error::Io(IoErrorKind::UnexpectedEof))
        } else {
            Decoded::Value(be_int(s.take(8)), 8)
        }
    }

    open spec fn prefix_overflow(&self) -> bool {
        false
    }

    proof fn lemma_decoded_len(s: Seq<u8>) {
    }

    proof fn lemma_round_trip(mv: int, rest: Seq<u8>) {
        lemma_pow256_values();
        lemma_be_bytes_len(mv, 8);
        assert((be_bytes(mv, 8) + rest).take(8) =~= be_bytes(mv, 8));
        lemma_be_round_trip(mv, 8);
    }

    proof fn lemma_decoded_prefix_eof(mv: int, s: Seq<u8>) {
        lemma_be_bytes_len(mv, 8);
    }

    fn read(source: &mut ByteSource) -> (r: Result<Self, Error>) {
        let v = read_be(source, 8)?;
        proof {
            lemma_be_int_bound(old(source).remaining().take(8));
            lemma_pow256_values();
        }
        Ok(v as u64)
    }

    fn write(&self, sink: &mut ByteSink) -> (r: Result<(), Error>) {
        proof {
            lemma_pow256_values();
        }
        write_be(sink, *self as u64, 8);
        Ok(())
    }
}

} // verus!
