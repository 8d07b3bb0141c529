//! The whole conversion, from the bytes of the input file to the text of
//! the output file.

use crate::cdata::cdata_restored;
use crate::catalog::{csv_table, parse_catalog, table_records, DELIMITER};
use crate::empty_tags::{empty_tags_replaced, regex_captures, replace_empty_tags, EMPTY_PAIR};
use crate::encoding::{decode_input, decoded};
use crate::error::{Error, ParseError};
use crate::header::{append_xml_header, xml_declaration};
use crate::indent::{indented, prettify_xml};
use crate::line_ending::LineEnding;
use crate::product::ProductView;
use crate::records::{catalog_records, layout_of, lemma_records_follow_rows, row_record};
use crate::serialize::{
    compact_document, element_end, element_offset, lemma_products_in_order, product_element,
    product_elements, to_xml,
};
use crate::xml_reader::read_tokens;
use vstd::prelude::*;

verus! {

/// The formatted form of a document: indented, its empty elements
/// collapsed, the XML declaration in front.
pub open spec fn formatted(xml: Seq<char>, eol: LineEnding) -> Result<Seq<char>, Error> {
    match read_tokens(xml) {
        None => Err(Error::Format),
        Some(tokens) => {
            let pretty = indented(tokens, eol);
            match empty_tags_replaced(pretty, regex_captures(EMPTY_PAIR@, pretty)) {
                Err(e) => Err(e),
                Ok(collapsed) => Ok(xml_declaration() + eol.text() + collapsed),
            }
        },
    }
}

/// The output document of an input file.
pub open spec fn converted(raw: Seq<u8>, legacy: bool, eol: LineEnding) -> Result<
    Seq<char>,
    Error,
> {
    match decoded(raw, legacy) {
        Err(e) => Err(e),
        Ok(text) => match table_records(csv_table(text, DELIMITER)) {
            Err(e) => Err(e),
            Ok(records) => formatted(cdata_restored(compact_document(records)), eol),
        },
    }
}

/// Rows keep their order: of two data rows of a catalogue that can be read,
/// the earlier one gives the `product` element that stands first in the
/// compact document, and each element is that of its row's record.
pub proof fn lemma_rows_keep_their_order(
    header: Seq<Seq<char>>,
    rows: Seq<Seq<Seq<char>>>,
    i: int,
    j: int,
)
    requires
        catalog_records(header, rows) is Ok,
        rows.len() <= usize::MAX,
        0 <= i < j < rows.len(),
    ensures
        ({
            let records = catalog_records(header, rows)->Ok_0;
            let elements = product_elements(records);
            &&& records.len() == rows.len()
            &&& row_record(layout_of(header), rows[i], i as usize) == Ok::<
                ProductView,
                ParseError,
            >(records[i])
            &&& row_record(layout_of(header), rows[j], j as usize) == Ok::<
                ProductView,
                ParseError,
            >(records[j])
            &&& element_end(records, i) <= element_offset(records, j)
            &&& element_end(records, j) <= elements.len()
            &&& elements.subrange(element_offset(records, i), element_end(records, i))
                == product_element(records[i])
            &&& elements.subrange(element_offset(records, j), element_end(records, j))
                == product_element(records[j])
        }),
{
    let layout = layout_of(header);
    lemma_records_follow_rows(layout, rows, i);
    lemma_records_follow_rows(layout, rows, j);
    lemma_products_in_order(catalog_records(header, rows)->Ok_0, i, j);
}

/// Formats a document in three passes: indent, collapse empty elements,
/// put the XML declaration in front.
pub fn format_document(xml: &str, eol: LineEnding) -> (r: Result<String, Error>)
    ensures
        match formatted(xml@, eol) {
            Ok(text) => r matches Ok(out) && out@ == text,
            Err(e) => r == Err::<String, Error>(e),
        },
{
    let pretty = match prettify_xml(xml, eol) {
        Ok(pretty) => pretty,
        Err(e) => {
            return Err(e);
        },
    };
    let collapsed = match replace_empty_tags(pretty.as_str()) {
        Ok(collapsed) => collapsed,
        Err(e) => {
            return Err(e);
        },
    };
    Ok(append_xml_header(collapsed.as_str(), eol))
}

/// Converts the bytes of a catalogue file into the text of the XML
/// document. Any failure ends the conversion: there is no partial output.
pub fn convert(raw: Vec<u8>, legacy: bool, eol: LineEnding) -> (r: Result<String, Error>)
    ensures
        match converted(raw@, legacy, eol) {
            Ok(text) => r matches Ok(out) && out@ == text,
            Err(e) => r == Err::<String, Error>(e),
        },
{
    let text = match decode_input(raw, legacy) {
        Ok(text) => text,
        Err(e) => {
            return Err(e);
        },
    };
    let list = match parse_catalog(text.as_slice()) {
        Ok(list) => list,
        Err(e) => {
            return Err(e);
        },
    };
    let xml = to_xml(&list);
    format_document(xml.as_str(), eol)
}

} // verus!
