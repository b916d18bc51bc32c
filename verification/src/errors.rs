//! The closed error taxonomy of the wire-protocol layers.
//!
//! Every layer propagates the first error it meets unchanged to its caller;
//! no layer retries or substitutes a default value.

use vstd::prelude::*;

verus! {

/// The error raised when a narrowing integer conversion does not fit the
/// destination type, as when a container's element count exceeds the range
/// of its size-prefix type.
#[derive(Debug, Copy, Clone, PartialEq, Eq)]
pub struct TryFromIntError {}

impl TryFromIntError {
    /// A fixed message describing the failed narrowing conversion.
    pub fn description(&self) -> (r: &'static str)
        ensures
            r@ == "out of range integral type conversion attempted"@,
    {
        "out of range integral type conversion attempted"
    }
}

/// The error raised when an integer is converted to a `char` but lies
/// outside the range of valid scalar values.
#[derive(Debug, Copy, Clone, PartialEq, Eq)]
pub struct CharTryFromError {}

impl CharTryFromError {
    /// A fixed message describing the failed character conversion.
    pub fn description(&self) -> (r: &'static str)
        ensures
            r@ == "converted integer out of range for `char`"@,
    {
        "converted integer out of range for `char`"
    }
}

/// The kind of a transport-level failure.
#[derive(Debug, Copy, Clone, PartialEq, Eq)]
pub enum IoErrorKind {
    /// The stream ended before the bytes a decode needed were available.
    UnexpectedEof,
    /// Any other transport failure, such as a malformed compressed payload.
    Other,
}

/// The single unified error type of the protocol: transport failures,
/// encoding-validity failures, and protocol-semantic failures.
#[derive(Debug, Clone, PartialEq, Eq)]
pub enum Error {
    /// A transport I/O failure.
    Io(IoErrorKind),
    /// Bytes that were declared to hold text were not well-formed UTF-8.
    FromUtf8,
    /// Text that must be NUL-free held an embedded NUL byte.
    FromNul,
    /// A narrowing integer conversion was out of range.
    TryFromInt(TryFromIntError),
    /// An integer-to-`char` conversion was out of range.
    CharTryFrom(CharTryFromError),
    /// A packet identifier was read that is not present in the registered set.
    UnknownPacketId,
    /// An enum discriminant was read that names no variant; carries the type
    /// name and the offending textual discriminant.
    UnknownEnumDiscriminator(String, String),
    /// A value of a type whose codec is not implemented was read; carries the
    /// type name.
    UnimplementedParcel(String),
}

} // verus!
