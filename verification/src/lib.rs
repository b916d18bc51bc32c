//! A binary wire-protocol library: typed values encode to and decode from
//! byte streams through a compositional codec contract, size-prefixed
//! containers carry a length of a chosen integer width, a middleware
//! pipeline transforms packet payloads symmetrically on send and receive,
//! and a connection frames payloads behind numeric packet identifiers.

pub mod array;
pub mod codec;
pub mod connection;
pub mod errors;
pub mod io;
pub mod middleware;
pub mod numbers;
