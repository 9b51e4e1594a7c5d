//! A minimal DNS wire-format codec and a single-threaded caching resolver core.
//!
//! The crate covers the RFC 1035 subset needed by a small forwarding resolver:
//! a fixed 512-byte bounded buffer cursor, the 12-byte header bit-field codec,
//! domain-name label compression (pointer following on decode, backreference
//! emission on encode), resource-record and message codecs, and the pure
//! cache-or-forward decision logic.  Socket handling lives outside the crate;
//! everything here works on plain byte buffers and is verified.

use vstd::prelude::*;

pub mod buffer;
pub mod header;
pub mod name;
pub mod packet;
pub mod record;
pub mod server;

verus! {

/// The ways a codec or cursor operation can fail.
#[derive(Clone, Copy, Debug, PartialEq, Eq, Structural)]
pub enum DnsError {
    /// A read or write touched an index at or beyond the 512-byte bound.
    BufferBounds,
    /// More than five compression pointers were followed while reading one name.
    CompressionLoopExceeded,
    /// A label of more than 63 bytes was handed to the name encoder.
    LabelTooLong,
}

} // verus!
