//! What can go wrong while a catalogue is converted.

use crate::column::Column;
use vstd::prelude::*;

verus! {

/// Why the catalogue text could not be turned into records.
#[derive(Clone, Copy, Debug, PartialEq, Eq, Structural)]
pub enum ParseError {
    /// The text is not a table: a row has another number of fields than the
    /// header, or a field is not valid UTF-8.
    Malformed,
    /// The header does not name this column.
    MissingColumn(Column),
    /// The header names this column more than once.
    DuplicateColumn(Column),
    /// The data row with this index (the first data row has index 0) has no
    /// field for one of the six columns.
    ShortRow(usize),
    /// The id of the data row with this index is not an unsigned 32-bit
    /// number.
    InvalidId(usize),
}

/// Why a conversion was given up.
#[derive(Clone, Copy, Debug, PartialEq, Eq, Structural)]
pub enum Error {
    /// The input is too long to be decoded.
    Decoding,
    /// The catalogue could not be parsed.
    Parse(ParseError),
    /// The document could not be formatted: it is not well-formed XML, or
    /// the search for its empty elements failed.
    Format,
}

} // verus!
