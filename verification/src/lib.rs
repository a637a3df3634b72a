//! Typed-column codec for a native database wire protocol.
//!
//! The crate turns a server-supplied textual type descriptor such as
//! `Decimal(18,4)`, `Array(Nullable(UInt32))` or `Enum8('a'=1,'b'=2)` into a
//! canonical type, builds the matching in-memory column, and performs the
//! binary decode and encode of column values against the little-endian wire
//! format.
//!
//! The pieces: [`types`] holds the canonical type model, [`text`], [`enums`]
//! and [`parser`] the descriptor grammar, [`column`] the in-memory columns,
//! [`reader`], [`codec`] and [`encode`] the wire format, and [`laws`] the
//! crate-wide theorems, chiefly the encode/decode round trip.

use vstd::prelude::*;

pub mod codec;
pub mod column;
pub mod encode;
pub mod enums;
pub mod laws;
pub mod parser;
pub mod reader;
pub mod text;
pub mod types;

verus! {

/// The error kinds a column decode can end in.
#[derive(Clone, Copy, Debug, PartialEq, Eq)]
pub enum Error {
    /// The descriptor matches no grammar rule.
    UnsupportedType,
    /// A composite rule matched by prefix, but its parameters are invalid.
    MalformedParameters,
    /// The byte source ended early or yielded an inconsistent stream.
    ReadFailure,
}

} // verus!
