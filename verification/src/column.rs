//! The six columns of a catalogue and the names they go by.

use vstd::prelude::*;

verus! {

/// One of the six columns that every catalogue must have, which is also one
/// of the six fields of a record.
#[derive(Clone, Copy, Debug, PartialEq, Eq, Structural)]
pub enum Column {
    /// The running number of the entry, `LFDNR`.
    Id,
    /// The article number, `ART_ID_ET`.
    ArticleNumber,
    /// The description of the article, `DESC_ET`.
    ArticleDescription,
    /// The order number, `BESTELLNUMMER`.
    OrderNumber,
    /// The order text, `BESTELLTEXT`.
    OrderDescription,
    /// The text by which the article is searched for, `SUCHTEXT`.
    ArticleSearchText,
}

impl Column {
    /// The name of the column in the header of the catalogue.
    pub open spec fn header_text(self) -> Seq<char> {
        match self {
            Column::Id => "LFDNR"@,
            Column::ArticleNumber => "ART_ID_ET"@,
            Column::ArticleDescription => "DESC_ET"@,
            Column::OrderNumber => "BESTELLNUMMER"@,
            Column::OrderDescription => "BESTELLTEXT"@,
            Column::ArticleSearchText => "SUCHTEXT"@,
        }
    }

    /// The name of the element that holds the field in the output.
    pub open spec fn tag_text(self) -> Seq<char> {
        match self {
            Column::Id => "id"@,
            Column::ArticleNumber => "articleNumber"@,
            Column::ArticleDescription => "articleDescription"@,
            Column::OrderNumber => "orderNumber"@,
            Column::OrderDescription => "orderDescription"@,
            Column::ArticleSearchText => "articleSearchText"@,
        }
    }

    /// The name of the column in the header of the catalogue.
    pub fn header_name(self) -> (name: &'static str)
        ensures
            name@ == self.header_text(),
    {
        match self {
            Column::Id => "LFDNR",
            Column::ArticleNumber => "ART_ID_ET",
            Column::ArticleDescription => "DESC_ET",
            Column::OrderNumber => "BESTELLNUMMER",
            Column::OrderDescription => "BESTELLTEXT",
            Column::ArticleSearchText => "SUCHTEXT",
        }
    }

    /// The name of the element that holds the field in the output.
    pub fn tag(self) -> (name: &'static str)
        ensures
            name@ == self.tag_text(),
    {
        match self {
            Column::Id => "id",
            Column::ArticleNumber => "articleNumber",
            Column::ArticleDescription => "articleDescription",
            Column::OrderNumber => "orderNumber",
            Column::OrderDescription => "orderDescription",
            Column::ArticleSearchText => "articleSearchText",
        }
    }
}

} // verus!
