//! A CSV record writer that encodes rows into caller-owned byte buffers.
//!
//! Rows are written field by field, as whole records, or by flattening a
//! structured [`Value`] into a row (with a header row inferred from the
//! field names of the first value). Field quoting and escaping is done by
//! `csv_core`; this crate keeps the row bookkeeping: the header lifecycle and
//! the field-count consistency check.

pub mod encoder;
pub mod error;
pub mod iter;
pub mod laws;
pub mod serializer;
pub mod stream;
pub mod value;
pub mod writer;

pub use error::{Error, ErrorKind};
pub use iter::Iter;
pub use stream::Stream;
pub use value::{Payload, Value};
pub use writer::{extend, HeaderState, Piece, Writer, WriterBuilder};

use vstd::prelude::*;

verus! {

/// The quoting style to use when writing CSV data.
#[derive(Clone, Copy, Debug, PartialEq, Eq, Structural)]
#[non_exhaustive]
pub enum QuoteStyle {
    /// This puts quotes around every field. Always.
    Always,
    /// This puts quotes around fields only when necessary.
    ///
    /// They are necessary when fields contain a quote, delimiter or record
    /// terminator. Quotes are also necessary when writing an empty record
    /// (which is indistinguishable from a record with one empty field).
    ///
    /// This is the default.
    Necessary,
    /// This puts quotes around all fields that are non-numeric.
    NonNumeric,
    /// This *never* writes quotes, even if it would produce invalid CSV data.
    Never,
}

impl Default for QuoteStyle {
    fn default() -> (r: QuoteStyle)
        ensures
            r == QuoteStyle::Necessary,
    {
        QuoteStyle::Necessary
    }
}

/// A record terminator.
///
/// `CRLF` writes `\r\n`; `Any(b)` writes the single byte `b`.
#[derive(Clone, Copy, Debug, PartialEq, Eq, Structural)]
#[non_exhaustive]
pub enum Terminator {
    /// Records end with `\r\n`.
    CRLF,
    /// Records end with the given byte.
    Any(u8),
}

impl Default for Terminator {
    fn default() -> (r: Terminator)
        ensures
            r == Terminator::CRLF,
    {
        Terminator::CRLF
    }
}

/// The whitespace preservation behaviour when reading CSV data.
#[derive(Clone, Copy, Debug, PartialEq, Eq, Structural)]
#[non_exhaustive]
pub enum Trim {
    /// Preserves fields and headers. This is the default.
    Preserve,
    /// Trim whitespace from headers.
    Headers,
    /// Trim whitespace from fields, but not headers.
    Fields,
    /// Trim whitespace from fields and headers.
    All,
}

impl Default for Trim {
    fn default() -> (r: Trim)
        ensures
            r == Trim::Preserve,
    {
        Trim::Preserve
    }
}

} // verus!
