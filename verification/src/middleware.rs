//! The middleware pipeline: an ordered set of named, togglable byte
//! transforms applied to a packet payload on send and inverted on receive.
//! The default stage set holds one stage, compression, disabled unless the
//! connection's user enables it with a chosen algorithm.

use vstd::prelude::*;

use crate::errors::{Error, IoErrorKind};

verus! {

/// The compression algorithms the compression stage can apply.
#[derive(Debug, Clone, Copy, PartialEq, Eq)]
pub enum Algorithm {
    /// The zlib format.
    Zlib,
}

/// The state of the compression stage: an identity transform when
/// disabled, a compression of the payload when enabled.
#[derive(Debug, Clone, Copy, PartialEq, Eq)]
pub enum Compression {
    Disabled,
    Enabled(Algorithm),
}

/// The middleware pipeline of a connection. Its stages run in declared
/// order on send and in reverse order on receive; the default stage set
/// holds only the compression stage.
#[derive(Debug, Clone, Copy, PartialEq, Eq)]
pub struct Pipeline {
    /// The compression stage's state.
    pub compression: Compression,
}

impl Default for Pipeline {
    /// The default pipeline: every stage disabled.
    fn default() -> (p: Pipeline)
        ensures
            p.compression == Compression::Disabled,
    {
        Pipeline { compression: Compression::Disabled }
    }
}

/// The bytes the zlib compressor produces for the given input; a function
/// of the input bytes alone.
pub uninterp spec fn deflate_of(data: Seq<u8>) -> Seq<u8>;

/// Relies on flate2's `ZlibEncoder`: compresses the input into the zlib
/// format at the default level; the output depends on the input bytes
/// alone, and writing into an in-memory buffer cannot fail.
#[verifier::external_body]
fn zlib_compress(data: &Vec<u8>) -> (r: Vec<u8>)
    ensures
        r@ == deflate_of(data@),
{
    let mut encoder = flate2::write::ZlibEncoder::new(Vec::new(), flate2::Compression::default());
    let _ = std::io::Write::write_all(&mut encoder, data.as_slice());
    encoder.finish().unwrap_or_default()
}

/// Relies on flate2's `ZlibDecoder`: the zlib format is lossless, so any
/// buffer the encoder produced decompresses back to the exact input it was
/// produced from; other buffers may be rejected as malformed.
#[verifier::external_body]
fn zlib_decompress(data: &Vec<u8>) -> (r: Result<Vec<u8>, Error>)
    ensures
        r is Ok <== exists|orig: Seq<u8>| data@ == deflate_of(orig),
        r matches Ok(out) ==> forall|orig: Seq<u8>| data@ == deflate_of(orig) ==> out@ == orig,
{
    let mut decoder = flate2::write::ZlibDecoder::new(Vec::new());
    match std::io::Write::write_all(&mut decoder, data.as_slice()).and_then(|_| decoder.finish()) {
        Ok(v) => Ok(v),
        Err(_) => Err(Error::Io(IoErrorKind::Other)),
    }
}

/// A verified byte-for-byte copy, the identity transform of a disabled
/// stage.
fn copy_bytes(data: &Vec<u8>) -> (r: Vec<u8>)
    ensures
        r@ == data@,
{
    let mut out: Vec<u8> = Vec::new();
    let mut i: usize = 0;
    while i < data.len()
        invariant
            i <= data@.len(),
            out@ == data@.take(i as int),
        decreases data@.len() - i,
    {
        out.push(data[i]);
        i = i + 1;
        proof {
            assert(data@.take(i as int) =~= data@.take(i - 1).push(data@[i - 1]));
        }
    }
    proof {
        assert(data@.take(data@.len() as int) =~= data@);
    }
    out
}

/// The bytes the pipeline's forward pass turns a payload into: the payload
/// itself while every stage is disabled, its compressed form when the
/// compression stage is enabled.
pub open spec fn transform_spec(p: Pipeline, data: Seq<u8>) -> Seq<u8> {
    match p.compression {
        Compression::Disabled => data,
        Compression::Enabled(Algorithm::Zlib) => deflate_of(data),
    }
}

/// Middleware identity: while a stage is in its default disabled state its
/// forward transform leaves every byte sequence unchanged.
pub proof fn lemma_disabled_identity(p: Pipeline, data: Seq<u8>)
    requires
        p.compression == Compression::Disabled,
    ensures
        transform_spec(p, data) == data,
{
}

impl Pipeline {
    /// Runs the pipeline forward over an outgoing payload.
    pub fn encode_data(&self, data: &Vec<u8>) -> (r: Vec<u8>)
        ensures
            r@ == transform_spec(*self, data@),
    {
        match self.compression {
            Compression::Disabled => copy_bytes(data),
            Compression::Enabled(Algorithm::Zlib) => zlib_compress(data),
        }
    }

    /// Runs the pipeline in reverse over a received payload: whatever the
    /// forward pass of a peer with the same configuration produced comes
    /// back unchanged; a payload no input could have produced may be
    /// rejected as malformed, never silently corrupted.
    pub fn decode_data(&self, data: &Vec<u8>) -> (r: Result<Vec<u8>, Error>)
        ensures
            forall|orig: Seq<u8>| transform_spec(*self, orig) == data@ ==> (r matches Ok(out)
                && out@ == orig),
    {
        match self.compression {
            Compression::Disabled => Ok(copy_bytes(data)),
            Compression::Enabled(Algorithm::Zlib) => zlib_decompress(data),
        }
    }
}

} // verus!
