//! Reading a catalogue: delimited text with a header row.

use crate::error::{Error, ParseError};
use crate::product::{ProductList, ProductView};
use crate::records::{catalog_records, records_from_rows};
use vstd::prelude::*;

verus! {

/// The byte that separates the fields of a row.
pub const DELIMITER: u8 = 0x3Bu8;

/// The header and the data rows that `csv` reads from delimited text, or
/// `None` where it reports an error: a row with another number of fields
/// than the first, or a field that is not valid UTF-8.
pub uninterp spec fn csv_table(data: Seq<u8>, delimiter: u8) -> Option<
    (Seq<Seq<char>>, Seq<Seq<Seq<char>>>),
>;

/// Reads delimited text with a `csv::Reader` made by `csv::ReaderBuilder`
/// with the given delimiter: `headers` gives the first row, `records` the
/// rows after it, up to the first error. The contract claims only that the
/// result is what the name above stands for.
#[verifier::external_body]
fn read_table(data: &[u8], delimiter: u8) -> (table: Option<(Vec<String>, Vec<Vec<String>>)>)
    ensures
        match table {
            Some((header, rows)) => csv_table(data@, delimiter) == Some(
                (header.deep_view(), rows.deep_view()),
            ),
            None => csv_table(data@, delimiter) is None,
        },
{
    let mut reader = csv::ReaderBuilder::new().delimiter(delimiter).from_reader(data);
    let header = reader.headers().ok()?.iter().map(String::from).collect();
    let mut rows = Vec::new();
    for record in reader.records() {
        rows.push(record.ok()?.iter().map(String::from).collect());
    }
    Some((header, rows))
}

/// The records of a catalogue whose text was read as the given table, if
/// it was read as one.
pub open spec fn table_records(table: Option<(Seq<Seq<char>>, Seq<Seq<Seq<char>>>)>) -> Result<
    Seq<ProductView>,
    Error,
> {
    match table {
        None => Err(Error::Parse(ParseError::Malformed)),
        Some((header, rows)) => match catalog_records(header, rows) {
            Ok(records) => Ok(records),
            Err(e) => Err(Error::Parse(e)),
        },
    }
}

/// Reads the records of a catalogue from its UTF-8 text: fields separated
/// by semicolons, the first row a header that names the columns.
pub fn parse_catalog(data: &[u8]) -> (r: Result<ProductList, Error>)
    ensures
        match table_records(csv_table(data@, DELIMITER)) {
            Ok(records) => r matches Ok(list) && list@ == records,
            Err(e) => r == Err::<ProductList, Error>(e),
        },
{
    match read_table(data, DELIMITER) {
        None => Err(Error::Parse(ParseError::Malformed)),
        Some((header, rows)) => match records_from_rows(&header, &rows) {
            Ok(list) => Ok(list),
            Err(e) => Err(Error::Parse(e)),
        },
    }
}

} // verus!
