//! The size-prefixed container codec: a sequence of elements encoded as a
//! length prefix of a chosen integer width followed by each element's own
//! encoding, in order. Every other size-prefixed composite reduces to this
//! template.

use vstd::prelude::*;

use crate::codec::{
    decode_elems, encoding_of_seq, lemma_decode_elems_len, lemma_decode_elems_prefix_eof,
    lemma_decode_elems_round_trip, lemma_encoding_of_seq_snoc, seq_encodable, Decoded, Type,
};
use crate::errors::{Error, IoErrorKind, TryFromIntError};
use crate::io::{ByteSink, ByteSource};
use crate::numbers::{be_bytes, be_int, lemma_be_bytes_len, lemma_be_round_trip, Integer};

verus! {

/// The size-prefix type the plain `Vec` codec uses.
pub type SizeType = u32;

/// Whether a sequence of element models fits behind a prefix of type `S`:
/// the count lies in `S`'s range and in the native length range, and every
/// element is itself encodable.
pub open spec fn arr_encodable<S: Integer, T: Type>(mvs: Seq<T::Model>) -> bool {
    &&& mvs.len() <= S::max_val()
    &&& mvs.len() <= usize::MAX
    &&& seq_encodable::<T>(mvs)
}

/// The bytes a size-prefixed container encodes to: the element count in
/// `S`'s wire form, then the elements' encodings in order.
pub open spec fn arr_encoding<S: Integer, T: Type>(mvs: Seq<T::Model>) -> Seq<u8> {
    be_bytes(mvs.len() as int, S::width()) + encoding_of_seq::<T>(mvs)
}

/// What a byte stream decodes to as a size-prefixed container: the prefix
/// is read, narrowed to a native length, and exactly that many elements are
/// decoded in order. A zero prefix yields an empty container with no
/// element reads.
pub open spec fn arr_decoded<S: Integer, T: Type>(s: Seq<u8>) -> Decoded<Seq<T::Model>> {
    if s.len() < S::width() {
        Decoded::Fail(Error::Io(IoErrorKind::UnexpectedEof))
    } else {
        let count = be_int(s.take(S::width()));
        if count > usize::MAX {
            Decoded::Fail(Error::TryFromInt(TryFromIntError {}))
        } else {
            match decode_elems::<T>(s.skip(S::width()), count) {
                Decoded::Value(mvs, j) => Decoded::Value(mvs, S::width() + j),
                Decoded::Fail(e) => Decoded::Fail(e),
            }
        }
    }
}

pub proof fn lemma_arr_decoded_len<S: Integer, T: Type>(s: Seq<u8>)
    ensures
        arr_decoded::<S, T>(s) matches Decoded::Value(mvs, n) ==> 1 <= n <= s.len(),
{
    S::lemma_shape();
    if s.len() >= S::width() {
        let count = be_int(s.take(S::width()));
        if count <= usize::MAX {
            lemma_decode_elems_len::<T>(s.skip(S::width()), count);
        }
    }
}

pub proof fn lemma_arr_round_trip<S: Integer, T: Type>(mvs: Seq<T::Model>, rest: Seq<u8>)
    requires
        arr_encodable::<S, T>(mvs),
    ensures
        arr_decoded::<S, T>(arr_encoding::<S, T>(mvs) + rest) == Decoded::Value(
            mvs,
            arr_encoding::<S, T>(mvs).len() as int,
        ),
{
    S::lemma_shape();
    let w = S::width();
    let len = mvs.len() as int;
    let prefix = be_bytes(len, w);
    let cat = encoding_of_seq::<T>(mvs);
    let whole = arr_encoding::<S, T>(mvs) + rest;
    lemma_be_bytes_len(len, w);
    assert(whole.take(w) =~= prefix);
    assert(whole.skip(w) =~= cat + rest);
    lemma_be_round_trip(len, w);
    lemma_decode_elems_round_trip::<T>(mvs, rest);
}

/// Truncation of a size-prefixed container is detected as such: decoding a
/// strict prefix of a valid container encoding fails with the
/// end-of-stream error.
pub proof fn lemma_arr_decoded_prefix_eof<S: Integer, T: Type>(mvs: Seq<T::Model>, s: Seq<u8>)
    requires
        arr_encodable::<S, T>(mvs),
        s.len() < arr_encoding::<S, T>(mvs).len(),
        s == arr_encoding::<S, T>(mvs).take(s.len() as int),
    ensures
        arr_decoded::<S, T>(s) == Decoded::<Seq<T::Model>>::Fail(
            Error::Io(IoErrorKind::UnexpectedEof),
        ),
{
    S::lemma_shape();
    let w = S::width();
    let len = mvs.len() as int;
    lemma_be_bytes_len(len, w);
    if s.len() >= w {
        assert(s.take(w) =~= be_bytes(len, w));
        lemma_be_round_trip(len, w);
        let body = s.skip(w);
        let cat = encoding_of_seq::<T>(mvs);
        assert(body.len() < cat.len());
        assert(body =~= cat.take(body.len() as int));
        lemma_decode_elems_prefix_eof::<T>(mvs, body);
    }
}

/// Reads a size-prefixed sequence of elements: the prefix of type `S`, its
/// narrowing to a native length, then exactly that many elements in order.
pub fn read_prefixed<S: Integer, T: Type>(source: &mut ByteSource) -> (r: Result<Vec<T>, Error>)
    ensures
        ({
            match arr_decoded::<S, T>(old(source).remaining()) {
                Decoded::Value(mvs, n) => r matches Ok(v) && v@.map_values(|e: T| e.m()) == mvs
                    && final(source).remaining() == old(source).remaining().skip(n),
                Decoded::Fail(e) => r matches Err(e2) && e2 == e,
            }
        }),
{
    let ghost orig = source.remaining();
    proof {
        S::lemma_shape();
    }
    let size = match S::read_value(source) {
        Ok(v) => v,
        Err(e) => {
            return Err(e);
        },
    };
    let count = match size.to_len() {
        Ok(c) => c,
        Err(e) => {
            proof {
                size.lemma_range();
            }
            return Err(e);
        },
    };
    let ghost body = orig.skip(S::width());
    let ghost total = count as int;
    let mut elements: Vec<T> = Vec::new();
    let mut i: usize = 0;
    let ghost mut consumed: int = 0;
    proof {
        assert(body.skip(0) =~= body);
        assert(Seq::<T::Model>::empty() + Seq::<T::Model>::empty() =~= Seq::<T::Model>::empty());
        assert(elements@.map_values(|e: T| e.m()) =~= Seq::<T::Model>::empty());
        if let Decoded::Value(mvs, j) = decode_elems::<T>(body, total) {
            assert(Seq::<T::Model>::empty() + mvs =~= mvs);
        }
    }
    while i < count
        invariant
            orig == old(source).remaining(),
            body == orig.skip(S::width()),
            total == count as int,
            be_int(orig.take(S::width())) == total,
            0 <= total <= usize::MAX,
            orig.len() >= S::width(),
            1 <= S::width() <= 8,
            i <= count,
            0 <= consumed <= body.len(),
            source.remaining() == body.skip(consumed),
            elements@.map_values(|e: T| e.m()).len() == i as int,
            ({
                match decode_elems::<T>(body.skip(consumed), total - i) {
                    Decoded::Value(mvs, j) => decode_elems::<T>(body, total) == Decoded::Value(
                        elements@.map_values(|e: T| e.m()) + mvs,
                        consumed + j,
                    ),
                    Decoded::Fail(e) => decode_elems::<T>(body, total) == Decoded::<Seq<
                        T::Model,
                    >>::Fail(e),
                }
            }),
        decreases count - i,
    {
        let ghost models = elements@.map_values(|e: T| e.m());
        let ghost here = body.skip(consumed);
        let element = match T::read(source) {
            Ok(v) => v,
            Err(e) => {
                return Err(e);
            },
        };
        proof {
            T::lemma_decoded_len(here);
        }
        let ghost k = match T::decoded(here) {
            Decoded::Value(mv, k) => k,
            Decoded::Fail(e) => 0,
        };
        elements.push(element);
        i = i + 1;
        proof {
            consumed = consumed + k;
            assert(here.skip(k) =~= body.skip(consumed));
            assert(elements@.map_values(|e: T| e.m()) =~= models.push(element.m()));
            if let Decoded::Value(mv, k2) = T::decoded(here) {
                if let Decoded::Value(mvs, j) = decode_elems::<T>(body.skip(consumed), total - i) {
                    assert(models + (seq![mv] + mvs) =~= models.push(element.m()) + mvs);
                }
            }
        }
    }
    proof {
        assert(elements@.map_values(|e: T| e.m()) + Seq::<T::Model>::empty() =~= elements@.map_values(
            |e: T| e.m(),
        ));
        assert(orig.skip(S::width() + consumed) =~= body.skip(consumed));
    }
    Ok(elements)
}

/// Writes a size-prefixed sequence of elements: the element count narrowed
/// into `S` — a count beyond `S`'s range is a range error raised before any
/// byte is written — then each element in order.
pub fn write_prefixed<S: Integer, T: Type>(elements: &Vec<T>, sink: &mut ByteSink) -> (r: Result<
    (),
    Error,
>)
    ensures
        arr_encodable::<S, T>(elements@.map_values(|e: T| e.m())) ==> (r matches Ok(u)
            && final(sink)@ == old(sink)@ + arr_encoding::<S, T>(
            elements@.map_values(|e: T| e.m()),
        )),
        !arr_encodable::<S, T>(elements@.map_values(|e: T| e.m())) ==> (r matches Err(e) && e
            == Error::TryFromInt(TryFromIntError {})),
        elements@.len() > S::max_val() ==> final(sink)@ == old(sink)@,
{
    let ghost models = elements@.map_values(|e: T| e.m());
    let prefix = match S::from_len(elements.len()) {
        Ok(p) => p,
        Err(e) => {
            return Err(e);
        },
    };
    prefix.write_value(sink);
    let ghost after_prefix = sink@;
    let mut i: usize = 0;
    while i < elements.len()
        invariant
            models == elements@.map_values(|e: T| e.m()),
            i <= elements@.len(),
            elements@.len() <= S::max_val(),
            prefix.to_int() == elements@.len(),
            after_prefix == old(sink)@ + be_bytes(elements@.len() as int, S::width()),
            sink@ == after_prefix + encoding_of_seq::<T>(models.take(i as int)),
            seq_encodable::<T>(models.take(i as int)),
        decreases elements@.len() - i,
    {
        let r = elements[i].write(sink);
        match r {
            Ok(_) => {},
            Err(e) => {
                proof {
                    assert(models[i as int] == elements@[i as int].m());
                }
                return Err(e);
            },
        }
        i = i + 1;
        proof {
            assert(models.take(i as int) =~= models.take(i - 1).push(models[i - 1]));
            lemma_encoding_of_seq_snoc::<T>(models.take(i - 1), models[i - 1]);
            assert(after_prefix + (encoding_of_seq::<T>(models.take(i - 1)) + T::encoding(
                models[i - 1],
            )) =~= (after_prefix + encoding_of_seq::<T>(models.take(i - 1))) + T::encoding(
                models[i - 1],
            ));
        }
    }
    proof {
        assert(models.take(models.len() as int) =~= models);
        assert(old(sink)@ + arr_encoding::<S, T>(models) =~= (old(sink)@ + be_bytes(
            models.len() as int,
            S::width(),
        )) + encoding_of_seq::<T>(models));
    }
    Ok(())
}

/// An array type with a custom size-prefix type: `S` fixes the wire width
/// of the element count at the type level, not per instance.
pub struct Array<S, T> {
    /// The elements the container carries, in order.
    pub elements: Vec<T>,
    /// Marks the size-prefix type; it carries no data.
    pub size_type: core::marker::PhantomData<S>,
}

impl<S: Integer, T: Type> Array<S, T> {
    /// Wraps a vector of elements as a size-prefixed container.
    pub fn new(elements: Vec<T>) -> (arr: Array<S, T>)
        ensures
            arr.elements == elements,
    {
        Array { elements, size_type: core::marker::PhantomData }
    }
}

impl<S: Integer, T: Type> Type for Array<S, T> {
    type Model = Seq<T::Model>;

    open spec fn m(&self) -> Seq<T::Model> {
        self.elements@.map_values(|e: T| e.m())
    }

    open spec fn encodable(mvs: Seq<T::Model>) -> bool {
        arr_encodable::<S, T>(mvs)
    }

    open spec fn encoding(mvs: Seq<T::Model>) -> Seq<u8> {
        arr_encoding::<S, T>(mvs)
    }

    open spec fn decoded(s: Seq<u8>) -> Decoded<Seq<T::Model>> {
        arr_decoded::<S, T>(s)
    }

    open spec fn prefix_overflow(&self) -> bool {
        self.elements@.len() > S::max_val()
    }

    proof fn lemma_decoded_len(s: Seq<u8>) {
        lemma_arr_decoded_len::<S, T>(s);
    }

    proof fn lemma_round_trip(mvs: Seq<T::Model>, rest: Seq<u8>) {
        lemma_arr_round_trip::<S, T>(mvs, rest);
    }

    proof fn lemma_decoded_prefix_eof(mvs: Seq<T::Model>, s: Seq<u8>) {
        lemma_arr_decoded_prefix_eof::<S, T>(mvs, s);
    }

    fn read(source: &mut ByteSource) -> (r: Result<Self, Error>) {
        let elements = read_prefixed::<S, T>(source)?;
        Ok(Array::new(elements))
    }

    fn write(&self, sink: &mut ByteSink) -> (r: Result<(), Error>) {
        write_prefixed::<S, T>(&self.elements, sink)
    }
}

impl<T: Type> Type for Vec<T> {
    type Model = Seq<T::Model>;

    open spec fn m(&self) -> Seq<T::Model> {
        self@.map_values(|e: T| e.m())
    }

    open spec fn encodable(mvs: Seq<T::Model>) -> bool {
        arr_encodable::<SizeType, T>(mvs)
    }

    open spec fn encoding(mvs: Seq<T::Model>) -> Seq<u8> {
        arr_encoding::<SizeType, T>(mvs)
    }

    open spec fn decoded(s: Seq<u8>) -> Decoded<Seq<T::Model>> {
        arr_decoded::<SizeType, T>(s)
    }

    open spec fn prefix_overflow(&self) -> bool {
        self@.len() > SizeType::max_val()
    }

    proof fn lemma_decoded_len(s: Seq<u8>) {
        lemma_arr_decoded_len::<SizeType, T>(s);
    }

    proof fn lemma_round_trip(mvs: Seq<T::Model>, rest: Seq<u8>) {
        lemma_arr_round_trip::<SizeType, T>(mvs, rest);
    }

    proof fn lemma_decoded_prefix_eof(mvs: Seq<T::Model>, s: Seq<u8>) {
        lemma_arr_decoded_prefix_eof::<SizeType, T>(mvs, s);
    }

    fn read(source: &mut ByteSource) -> (r: Result<Self, Error>) {
        read_prefixed::<SizeType, T>(source)
    }

    fn write(&self, sink: &mut ByteSink) -> (r: Result<(), Error>) {
        write_prefixed::<SizeType, T>(self, sink)
    }
}

} // verus!
