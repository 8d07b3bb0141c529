//! The XML declaration that opens the output document.

use crate::line_ending::LineEnding;
use vstd::prelude::*;
use vstd::string::StringExecFns;

verus! {

/// The XML declaration, without a line separator.
pub open spec fn xml_declaration() -> Seq<char> {
    "<?xml version=\"1.0\" encoding=\"UTF-8\" standalone=\"yes\"?>"@
}

/// Puts the XML declaration and one line separator in front of `xml`.
pub fn append_xml_header(xml: &str, eol: LineEnding) -> (out: String)
    ensures
        out@ == xml_declaration() + eol.text() + xml@,
{
    let mut out = String::from_str("<?xml version=\"1.0\" encoding=\"UTF-8\" standalone=\"yes\"?>");
    out.append(eol.as_str());
    out.append(xml);
    out
}

} // verus!
