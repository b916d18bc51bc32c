//! Packet framing over a duplex byte stream: a packet travels as a
//! four-byte big-endian identifier followed by the payload the middleware
//! pipeline produced. The transport itself is an external collaborator: it
//! hands a received frame in and takes an outgoing frame back to the wire.

use vstd::prelude::*;

use crate::codec::{Decoded, Type};
use crate::errors::{Error, IoErrorKind, TryFromIntError};
use crate::io::{ByteSink, ByteSource};
use crate::middleware::{transform_spec, Pipeline};
use crate::numbers::{be_bytes, be_int, lemma_be_int_bound, lemma_pow256_values, read_be, write_be};

verus! {

/// One endpoint's view of a packet stream: the middleware pipeline applied
/// to every payload, and the set of packet identifiers the endpoint knows
/// how to decode.
pub struct Connection {
    /// The middleware pipeline, mutable between packet operations.
    pub middleware: Pipeline,
    /// The registered packet identifiers, in registration order.
    pub registered: Vec<u32>,
}

impl Connection {
    /// The registered packet identifiers.
    pub open spec fn registered_ids(&self) -> Seq<u32> {
        self.registered@
    }

    /// Identifiers must be unique within one connection's registered set.
    pub open spec fn wf(&self) -> bool {
        forall|i: int, j: int|
            0 <= i < j < self.registered@.len() ==> #[trigger] self.registered@[i]
                != #[trigger] self.registered@[j]
    }

    /// Wraps a byte stream's endpoint state around a middleware pipeline,
    /// with no packet identifiers registered yet.
    pub fn new(middleware: Pipeline) -> (c: Connection)
        ensures
            c.middleware == middleware,
            c.registered_ids() == Seq::<u32>::empty(),
            c.wf(),
    {
        let c = Connection { middleware, registered: Vec::new() };
        proof {
            assert(c.registered_ids() =~= Seq::<u32>::empty());
        }
        c
    }

    /// Whether `id` is in the registered set.
    pub fn is_registered(&self, id: u32) -> (r: bool)
        ensures
            r == self.registered_ids().contains(id),
    {
        let mut i: usize = 0;
        while i < self.registered.len()
            invariant
                i <= self.registered@.len(),
                forall|k: int| 0 <= k < i ==> #[trigger] self.registered@[k] != id,
            decreases self.registered@.len() - i,
        {
            if self.registered[i] == id {
                proof {
                    assert(self.registered@[i as int] == id);
                }
                return true;
            }
            i = i + 1;
        }
        proof {
            assert(!self.registered@.contains(id));
        }
        false
    }

    /// Registers a packet identifier. An identifier collision is a
    /// configuration error caught here, at registration, which is why the
    /// identifier is required to be new.
    pub fn register(&mut self, id: u32)
        requires
            old(self).wf(),
            !old(self).registered_ids().contains(id),
        ensures
            final(self).wf(),
            final(self).registered_ids() == old(self).registered_ids().push(id),
            final(self).middleware == old(self).middleware,
    {
        self.registered.push(id);
        proof {
            assert forall|i: int, j: int|
                0 <= i < j < self.registered@.len() implies #[trigger] self.registered@[i]
                != #[trigger] self.registered@[j] by {
                if j == self.registered@.len() - 1 {
                    assert(old(self).registered@.contains(old(self).registered@[i]));
                }
            }
        }
    }

    /// Builds the frame that sends `value` as the packet with identifier
    /// `id`: the value's encoding runs forward through the middleware
    /// pipeline and is prefixed with the identifier. The caller writes the
    /// frame to its transport and flushes.
    pub fn send_packet<T: Type>(&self, id: u32, value: &T) -> (r: Result<Vec<u8>, Error>)
        ensures
            T::encodable(value.m()) ==> (r matches Ok(frame) && frame@ == be_bytes(id as int, 4)
                + transform_spec(self.middleware, T::encoding(value.m()))),
            !T::encodable(value.m()) ==> (r matches Err(e) && e == Error::TryFromInt(
                TryFromIntError {},
            )),
    {
        let mut sink = ByteSink::new();
        match value.write(&mut sink) {
            Ok(_) => {},
            Err(e) => {
                return Err(e);
            },
        }
        let body = sink.into_vec();
        let transformed = self.middleware.encode_data(&body);
        let mut framed = ByteSink::new();
        proof {
            lemma_pow256_values();
        }
        write_be(&mut framed, id as u64, 4);
        framed.append(&transformed);
        let out = framed.into_vec();
        proof {
            assert(Seq::<u8>::empty() + T::encoding(value.m()) =~= T::encoding(value.m()));
            assert((Seq::<u8>::empty() + be_bytes(id as int, 4)) + transformed@ =~= be_bytes(
                id as int,
                4,
            ) + transform_spec(self.middleware, T::encoding(value.m())));
        }
        Ok(out)
    }

    /// Accepts a received frame, or `None` when the transport had no data
    /// yet — then no packet is available and nothing is consumed, so a
    /// cooperative polling caller can try again. A frame's identifier is
    /// looked up in the registered set — an absent identifier is the
    /// unknown-packet-identifier error — and its payload runs in reverse
    /// through the middleware pipeline, recovering exactly the bytes a peer
    /// with the same pipeline configuration sent.
    pub fn receive_packet(&self, frame: Option<Vec<u8>>) -> (r: Result<Option<(u32, Vec<u8>)>, Error>)
        ensures
            frame is None ==> (r matches Ok(x) && x is None),
            frame matches Some(f) ==> ({
                let id = be_int(f@.take(4)) as u32;
                &&& f@.len() < 4 ==> (r matches Err(e) && e == Error::Io(
                    IoErrorKind::UnexpectedEof,
                ))
                &&& (f@.len() >= 4 && !self.registered_ids().contains(id)) ==> (r matches Err(e)
                    && e == Error::UnknownPacketId)
                &&& (f@.len() >= 4 && self.registered_ids().contains(id)) ==> (forall|
                    orig: Seq<u8>,
                |
                    transform_spec(self.middleware, orig) == f@.skip(4) ==> (r matches Ok(x)
                        && x matches Some(p) && p.0 == id && p.1@ == orig))
            }),
    {
        let f = match frame {
            None => {
                return Ok(None);
            },
            Some(f) => f,
        };
        let ghost fv = f@;
        let mut source = ByteSource::new(f);
        let id64 = match read_be(&mut source, 4) {
            Ok(v) => v,
            Err(e) => {
                return Err(e);
            },
        };
        proof {
            lemma_be_int_bound(fv.take(4));
            lemma_pow256_values();
        }
        let id = id64 as u32;
        if !self.is_registered(id) {
            return Err(Error::UnknownPacketId);
        }
        let payload = source.read_rest();
        let restored = match self.middleware.decode_data(&payload) {
            Ok(v) => v,
            Err(e) => {
                return Err(e);
            },
        };
        Ok(Some((id, restored)))
    }
}

/// Decodes a packet payload as a value of `T`. Which `T` a payload decodes
/// as is the caller's choice: the registration table that maps an
/// identifier to its packet type is an external collaborator.
pub fn decode_packet<T: Type>(payload: Vec<u8>) -> (r: Result<T, Error>)
    ensures
        ({
            match T::decoded(payload@) {
                Decoded::Value(mv, n) => r matches Ok(v) && v.m() == mv,
                Decoded::Fail(e) => r matches Err(e2) && e2 == e,
            }
        }),
{
    let mut source = ByteSource::new(payload);
    T::read(&mut source)
}

} // verus!
