//! The codec contract: every wire-serializable type states, over a
//! mathematical model of its values, which bytes `write` produces and which
//! value `read` yields from a byte stream, and proves that the two agree.

use vstd::prelude::*;

use crate::errors::{Error, IoErrorKind, TryFromIntError};
use crate::io::{ByteSink, ByteSource};

verus! {

/// The outcome a byte sequence decodes to: a model value together with the
/// count of bytes consumed, or the error the decode raises.
pub enum Decoded<M> {
    Value(M, int),
    Fail(Error),
}

/// The contract a type implements to be wire-serializable.
///
/// The contract is stated over `Model`, the mathematical value a codec value
/// stands for, so that composite codecs can be specified purely in terms of
/// the models of their elements.
pub trait Type: Sized {
    /// The mathematical value a value of this type stands for.
    type Model;

    /// The model of this value.
    spec fn m(&self) -> Self::Model;

    /// Whether a model value can be encoded at all; a container whose
    /// element count exceeds its size prefix's range cannot.
    spec fn encodable(mv: Self::Model) -> bool;

    /// The exact bytes an encodable model value encodes to.
    spec fn encoding(mv: Self::Model) -> Seq<u8>;

    /// What a byte stream decodes to: the model value read from its front
    /// and the bytes consumed, or the error raised.
    spec fn decoded(s: Seq<u8>) -> Decoded<Self::Model>;

    /// Whether this value's own element count overflows its own size
    /// prefix; always false for a type without one.
    spec fn prefix_overflow(&self) -> bool;

    /// A successful decode consumes at least one byte and no more than the
    /// stream holds.
    proof fn lemma_decoded_len(s: Seq<u8>)
        ensures
            Self::decoded(s) matches Decoded::Value(mv, n) ==> 1 <= n <= s.len(),
    ;

    /// Round-trip fidelity: decoding the encoding of an encodable model
    /// value yields that value back, consuming exactly the encoding,
    /// whatever bytes follow it.
    proof fn lemma_round_trip(mv: Self::Model, rest: Seq<u8>)
        requires
            Self::encodable(mv),
        ensures
            Self::decoded(Self::encoding(mv) + rest) == Decoded::Value(
                mv,
                Self::encoding(mv).len() as int,
            ),
    ;

    /// Truncation is detected as such: decoding a strict prefix of a valid
    /// encoding fails with the end-of-stream error, never with a silently
    /// short or corrupted value.
    proof fn lemma_decoded_prefix_eof(mv: Self::Model, s: Seq<u8>)
        requires
            Self::encodable(mv),
            s.len() < Self::encoding(mv).len(),
            s == Self::encoding(mv).take(s.len() as int),
        ensures
            Self::decoded(s) == Decoded::<Self::Model>::Fail(Error::Io(IoErrorKind::UnexpectedEof)),
    ;

    /// Decodes one value from the front of the source.
    fn read(source: &mut ByteSource) -> (r: Result<Self, Error>)
        ensures
            ({
                match Self::decoded(old(source).remaining()) {
                    Decoded::Value(mv, n) => r matches Ok(v) && v.m() == mv
                        && final(source).remaining() == old(source).remaining().skip(n),
                    Decoded::Fail(e) => r matches Err(e2) && e2 == e,
                }
            }),
    ;

    /// Encodes this value onto the end of the sink. An unencodable value is
    /// a range error; a value whose own element count overflows its prefix
    /// is rejected before any byte is written.
    fn write(&self, sink: &mut ByteSink) -> (r: Result<(), Error>)
        ensures
            Self::encodable(self.m()) ==> (r matches Ok(u) && final(sink)@ == old(sink)@
                + Self::encoding(self.m())),
            !Self::encodable(self.m()) ==> (r matches Err(e) && e == Error::TryFromInt(
                TryFromIntError {},
            )),
            self.prefix_overflow() ==> final(sink)@ == old(sink)@,
    ;
}

/// Whether every model value of a sequence is encodable.
pub open spec fn seq_encodable<T: Type>(mvs: Seq<T::Model>) -> bool {
    forall|i: int| 0 <= i < mvs.len() ==> T::encodable(#[trigger] mvs[i])
}

/// The concatenated encodings of a sequence of model values, in order.
pub open spec fn encoding_of_seq<T: Type>(mvs: Seq<T::Model>) -> Seq<u8>
    decreases mvs.len(),
{
    if mvs.len() == 0 {
        Seq::empty()
    } else {
        T::encoding(mvs[0]) + encoding_of_seq::<T>(mvs.skip(1))
    }
}

/// What a byte stream decodes to when exactly `n` values of `T` are read
/// from its front in order.
pub open spec fn decode_elems<T: Type>(s: Seq<u8>, n: int) -> Decoded<Seq<T::Model>>
    decreases n,
{
    if n <= 0 {
        Decoded::Value(Seq::empty(), 0)
    } else {
        match T::decoded(s) {
            Decoded::Value(mv, k) => match decode_elems::<T>(s.skip(k), n - 1) {
                Decoded::Value(mvs, j) => Decoded::Value(seq![mv] + mvs, k + j),
                Decoded::Fail(e) => Decoded::Fail(e),
            },
            Decoded::Fail(e) => Decoded::Fail(e),
        }
    }
}

/// A successful element-sequence decode yields exactly `n` values and
/// consumes no more bytes than the stream holds.
pub proof fn lemma_decode_elems_len<T: Type>(s: Seq<u8>, n: int)
    ensures
        decode_elems::<T>(s, n) matches Decoded::Value(mvs, j) ==> mvs.len() == (if n <= 0 {
            0
        } else {
            n
        }) && 0 <= j <= s.len(),
    decreases n,
{
    if n > 0 {
        match T::decoded(s) {
            Decoded::Value(mv, k) => {
                T::lemma_decoded_len(s);
                lemma_decode_elems_len::<T>(s.skip(k), n - 1);
            },
            Decoded::Fail(_) => {},
        }
    }
}

/// Truncated-stream rejection: a declared count that exceeds the bytes
/// actually available makes decoding fail with an error, never a silently
/// short result.
pub proof fn lemma_truncated_rejection<T: Type>(s: Seq<u8>, n: int)
    requires
        n > s.len(),
    ensures
        decode_elems::<T>(s, n) is Fail,
    decreases n,
{
    match T::decoded(s) {
        Decoded::Value(mv, k) => {
            T::lemma_decoded_len(s);
            lemma_truncated_rejection::<T>(s.skip(k), n - 1);
        },
        Decoded::Fail(_) => {},
    }
}

/// Truncation of an element sequence is detected as such: decoding the
/// declared count of elements from a strict prefix of their concatenated
/// encodings fails with the end-of-stream error.
pub proof fn lemma_decode_elems_prefix_eof<T: Type>(mvs: Seq<T::Model>, s: Seq<u8>)
    requires
        seq_encodable::<T>(mvs),
        s.len() < encoding_of_seq::<T>(mvs).len(),
        s == encoding_of_seq::<T>(mvs).take(s.len() as int),
    ensures
        decode_elems::<T>(s, mvs.len() as int) == Decoded::<Seq<T::Model>>::Fail(
            Error::Io(IoErrorKind::UnexpectedEof),
        ),
    decreases mvs.len(),
{
    if mvs.len() == 0 {
        assert(false);
    } else {
        let head = mvs[0];
        let tail = mvs.skip(1);
        let enc_head = T::encoding(head);
        let enc_tail = encoding_of_seq::<T>(tail);
        if s.len() < enc_head.len() {
            assert(s =~= enc_head.take(s.len() as int));
            T::lemma_decoded_prefix_eof(head, s);
        } else {
            let rest = s.skip(enc_head.len() as int);
            assert(s =~= enc_head + rest);
            T::lemma_round_trip(head, rest);
            assert(rest.len() < enc_tail.len());
            assert(rest =~= enc_tail.take(rest.len() as int));
            assert(seq_encodable::<T>(tail));
            lemma_decode_elems_prefix_eof::<T>(tail, rest);
        }
    }
}

/// Appending one model value to a sequence appends its encoding to the
/// sequence's encoding.
pub proof fn lemma_encoding_of_seq_snoc<T: Type>(mvs: Seq<T::Model>, x: T::Model)
    ensures
        encoding_of_seq::<T>(mvs.push(x)) == encoding_of_seq::<T>(mvs) + T::encoding(x),
    decreases mvs.len(),
{
    if mvs.len() == 0 {
        assert(mvs.push(x)[0] == x);
        assert(mvs.push(x).skip(1) =~= Seq::<T::Model>::empty());
        assert(encoding_of_seq::<T>(mvs.push(x)) == T::encoding(x) + encoding_of_seq::<T>(
            Seq::empty(),
        ));
        assert(T::encoding(x) + Seq::<u8>::empty() =~= T::encoding(x));
        assert(encoding_of_seq::<T>(mvs) + T::encoding(x) =~= T::encoding(x));
    } else {
        assert(mvs.push(x).skip(1) =~= mvs.skip(1).push(x));
        lemma_encoding_of_seq_snoc::<T>(mvs.skip(1), x);
        assert(T::encoding(mvs[0]) + (encoding_of_seq::<T>(mvs.skip(1)) + T::encoding(x)) =~= (
        T::encoding(mvs[0]) + encoding_of_seq::<T>(mvs.skip(1))) + T::encoding(x));
    }
}

/// Round-trip fidelity for element sequences: decoding the concatenated
/// encodings of `mvs`, `mvs.len()` values deep, yields `mvs` back.
pub proof fn lemma_decode_elems_round_trip<T: Type>(mvs: Seq<T::Model>, rest: Seq<u8>)
    requires
        seq_encodable::<T>(mvs),
    ensures
        decode_elems::<T>(encoding_of_seq::<T>(mvs) + rest, mvs.len() as int) == Decoded::Value(
            mvs,
            encoding_of_seq::<T>(mvs).len() as int,
        ),
    decreases mvs.len(),
{
    if mvs.len() == 0 {
        assert(mvs =~= Seq::<T::Model>::empty());
    } else {
        let head = mvs[0];
        let tail = mvs.skip(1);
        let enc_tail = encoding_of_seq::<T>(tail);
        let enc_head = T::encoding(head);
        let whole = encoding_of_seq::<T>(mvs) + rest;
        assert(whole =~= enc_head + (enc_tail + rest));
        T::lemma_round_trip(head, enc_tail + rest);
        assert(whole.skip(enc_head.len() as int) =~= enc_tail + rest);
        assert(seq_encodable::<T>(tail));
        lemma_decode_elems_round_trip::<T>(tail, rest);
        assert(seq![head] + tail =~= mvs);
    }
}

/// The round-trip law: for every encodable model value of every codec type,
/// decoding the encoding yields the value back and consumes it whole.
pub proof fn lemma_codec_round_trip<T: Type>(mv: T::Model)
    requires
        T::encodable(mv),
    ensures
        T::decoded(T::encoding(mv)) == Decoded::Value(mv, T::encoding(mv).len() as int),
{
    T::lemma_round_trip(mv, Seq::empty());
    assert(T::encoding(mv) + Seq::<u8>::empty() =~= T::encoding(mv));
}

} // verus!
