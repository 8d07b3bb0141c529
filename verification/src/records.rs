//! From the rows of a catalogue to its records.

use crate::cdata::{cdata_section, wrap_cdata};
use crate::column::Column;
use crate::error::ParseError;
use crate::id::{id_value, parse_id};
use crate::product::{views_of, Product, ProductList, ProductView};
use vstd::prelude::*;
use vstd::string::StringExecFns;

verus! {

/// How often `name` stands in the header.
pub open spec fn count_of(header: Seq<Seq<char>>, name: Seq<char>) -> nat
    decreases header.len(),
{
    if header.len() == 0 {
        0
    } else {
        count_of(header.drop_last(), name) + if header.last() == name {
            1nat
        } else {
            0nat
        }
    }
}

/// The index of the first field of the header that is `name`, or the
/// length of the header where none is.
pub open spec fn first_of(header: Seq<Seq<char>>, name: Seq<char>) -> nat
    decreases header.len(),
{
    if header.len() == 0 {
        0
    } else if header[0] == name {
        0
    } else {
        1 + first_of(header.drop_first(), name)
    }
}

/// The first place of a name in a header with one more field.
proof fn lemma_first_of_push(header: Seq<Seq<char>>, field: Seq<char>, name: Seq<char>)
    ensures
        first_of(header, name) <= header.len(),
        first_of(header.push(field), name) == if first_of(header, name) < header.len() {
            first_of(header, name)
        } else if field == name {
            header.len()
        } else {
            header.len() + 1
        },
    decreases header.len(),
{
    if header.len() == 0 {
        assert(header.push(field).drop_first() =~= header);
    } else {
        lemma_first_of_push(header.drop_first(), field, name);
        assert(header.push(field).drop_first() =~= header.drop_first().push(field));
    }
}

/// What is wrong with the header about one column, if anything: the
/// column must be named exactly once.
pub open spec fn column_error(header: Seq<Seq<char>>, column: Column) -> Option<ParseError> {
    let count = count_of(header, column.header_text());
    if count == 0 {
        Some(ParseError::MissingColumn(column))
    } else if count > 1 {
        Some(ParseError::DuplicateColumn(column))
    } else {
        None
    }
}

/// The first thing that is wrong with the header, the columns taken in the
/// order of the fields of a record.
pub open spec fn header_error(header: Seq<Seq<char>>) -> Option<ParseError> {
    if column_error(header, Column::Id) is Some {
        column_error(header, Column::Id)
    } else if column_error(header, Column::ArticleNumber) is Some {
        column_error(header, Column::ArticleNumber)
    } else if column_error(header, Column::ArticleDescription) is Some {
        column_error(header, Column::ArticleDescription)
    } else if column_error(header, Column::OrderNumber) is Some {
        column_error(header, Column::OrderNumber)
    } else if column_error(header, Column::OrderDescription) is Some {
        column_error(header, Column::OrderDescription)
    } else {
        column_error(header, Column::ArticleSearchText)
    }
}

/// Where each of the six columns stands in a row.
#[derive(Clone, Copy, Debug, PartialEq, Eq, Structural)]
pub struct Layout {
    pub id: usize,
    pub article_number: usize,
    pub article_description: usize,
    pub order_number: usize,
    pub order_description: usize,
    pub article_search_text: usize,
}

/// Whether a row has a field for each of the six columns.
pub open spec fn row_fits(layout: Layout, row: Seq<Seq<char>>) -> bool {
    &&& layout.id < row.len()
    &&& layout.article_number < row.len()
    &&& layout.article_description < row.len()
    &&& layout.order_number < row.len()
    &&& layout.order_description < row.len()
    &&& layout.article_search_text < row.len()
}

/// The record of the data row with the given index: each field taken from
/// its column, the id read as a number, the search text wrapped as a
/// character data section.
pub open spec fn row_record(layout: Layout, row: Seq<Seq<char>>, index: usize) -> Result<
    ProductView,
    ParseError,
> {
    if !row_fits(layout, row) {
        Err(ParseError::ShortRow(index))
    } else {
        match id_value(row[layout.id as int]) {
            None => Err(ParseError::InvalidId(index)),
            Some(id) => Ok(
                ProductView {
                    id,
                    article_number: row[layout.article_number as int],
                    article_description: row[layout.article_description as int],
                    order_number: row[layout.order_number as int],
                    order_description: row[layout.order_description as int],
                    article_search_text: cdata_section(row[layout.article_search_text as int]),
                },
            ),
        }
    }
}

/// The records of the data rows, in the order of the rows, or what is
/// wrong with the first row that gives no record.
pub open spec fn rows_records(layout: Layout, rows: Seq<Seq<Seq<char>>>) -> Result<
    Seq<ProductView>,
    ParseError,
>
    decreases rows.len(),
{
    if rows.len() == 0 {
        Ok(Seq::empty())
    } else {
        match rows_records(layout, rows.drop_last()) {
            Err(e) => Err(e),
            Ok(records) => match row_record(layout, rows.last(), (rows.len() - 1) as usize) {
                Err(e) => Err(e),
                Ok(record) => Ok(records.push(record)),
            },
        }
    }
}

/// The layout that a header gives.
pub open spec fn layout_of(header: Seq<Seq<char>>) -> Layout {
    Layout {
        id: first_of(header, Column::Id.header_text()) as usize,
        article_number: first_of(header, Column::ArticleNumber.header_text()) as usize,
        article_description: first_of(header, Column::ArticleDescription.header_text()) as usize,
        order_number: first_of(header, Column::OrderNumber.header_text()) as usize,
        order_description: first_of(header, Column::OrderDescription.header_text()) as usize,
        article_search_text: first_of(header, Column::ArticleSearchText.header_text()) as usize,
    }
}

/// The records of a catalogue with the given header and data rows.
pub open spec fn catalog_records(header: Seq<Seq<char>>, rows: Seq<Seq<Seq<char>>>) -> Result<
    Seq<ProductView>,
    ParseError,
> {
    match header_error(header) {
        Some(e) => Err(e),
        None => rows_records(layout_of(header), rows),
    }
}

/// Finds the one place where the header names `column`.
pub fn locate(header: &Vec<String>, column: Column) -> (place: Result<usize, ParseError>)
    ensures
        match place {
            Ok(index) => {
                &&& column_error(header.deep_view(), column) is None
                &&& index == first_of(header.deep_view(), column.header_text())
                &&& index < header.len()
                &&& header.deep_view()[index as int] == column.header_text()
            },
            Err(e) => column_error(header.deep_view(), column) == Some(e),
        },
{
    let name = String::from_str(column.header_name());
    let ghost names = header.deep_view();
    let mut count: usize = 0;
    let mut first: usize = 0;
    let mut i: usize = 0;
    assert(names.take(0) =~= Seq::empty());
    while i < header.len()
        invariant
            i <= header.len(),
            names == header.deep_view(),
            name@ == column.header_text(),
            count == count_of(names.take(i as int), name@),
            count <= i,
            first == first_of(names.take(i as int), name@),
            first <= i,
            count == 0 <==> first == i,
            count > 0 ==> names[first as int] == name@,
        decreases header.len() - i,
    {
        proof {
            let next = names.take(i + 1);
            assert(next.drop_last() =~= names.take(i as int));
            assert(next.last() == header@[i as int]@);
            assert(next =~= names.take(i as int).push(header@[i as int]@));
            lemma_first_of_push(names.take(i as int), header@[i as int]@, name@);
        }
        if header[i] == name {
            if count == 0 {
                first = i;
            }
            count += 1;
        } else if count == 0 {
            first = i + 1;
        }
        i += 1;
    }
    assert(names.take(i as int) =~= names);
    if count == 0 {
        Err(ParseError::MissingColumn(column))
    } else if count > 1 {
        Err(ParseError::DuplicateColumn(column))
    } else {
        Ok(first)
    }
}

/// Finds the places of the six columns in the header. Each must be named
/// exactly once; other columns are passed over.
pub fn read_header(header: &Vec<String>) -> (r: Result<Layout, ParseError>)
    ensures
        match r {
            Ok(layout) => header_error(header.deep_view()) is None && layout == layout_of(
                header.deep_view(),
            ),
            Err(e) => header_error(header.deep_view()) == Some(e),
        },
{
    let id = match locate(header, Column::Id) {
        Ok(index) => index,
        Err(e) => {
            return Err(e);
        },
    };
    let article_number = match locate(header, Column::ArticleNumber) {
        Ok(index) => index,
        Err(e) => {
            return Err(e);
        },
    };
    let article_description = match locate(header, Column::ArticleDescription) {
        Ok(index) => index,
        Err(e) => {
            return Err(e);
        },
    };
    let order_number = match locate(header, Column::OrderNumber) {
        Ok(index) => index,
        Err(e) => {
            return Err(e);
        },
    };
    let order_description = match locate(header, Column::OrderDescription) {
        Ok(index) => index,
        Err(e) => {
            return Err(e);
        },
    };
    let article_search_text = match locate(header, Column::ArticleSearchText) {
        Ok(index) => index,
        Err(e) => {
            return Err(e);
        },
    };
    Ok(
        Layout {
            id,
            article_number,
            article_description,
            order_number,
            order_description,
            article_search_text,
        },
    )
}

/// Builds the record of one data row. `index` counts the data rows from 0.
pub fn read_row(layout: &Layout, row: &Vec<String>, index: usize) -> (r: Result<
    Product,
    ParseError,
>)
    ensures
        match row_record(*layout, row.deep_view(), index) {
            Ok(record) => r matches Ok(product) && product@ == record,
            Err(e) => r == Err::<Product, ParseError>(e),
        },
{
    let len = row.len();
    if !(layout.id < len && layout.article_number < len && layout.article_description < len
        && layout.order_number < len && layout.order_description < len
        && layout.article_search_text < len) {
        return Err(ParseError::ShortRow(index));
    }
    let id = match parse_id(row[layout.id].as_str()) {
        Some(id) => id,
        None => {
            return Err(ParseError::InvalidId(index));
        },
    };
    Ok(
        Product {
            id,
            article_number: row[layout.article_number].clone(),
            article_description: row[layout.article_description].clone(),
            order_number: row[layout.order_number].clone(),
            order_description: row[layout.order_description].clone(),
            article_search_text: wrap_cdata(row[layout.article_search_text].as_str()),
        },
    )
}

/// Builds the records of a catalogue from its header and its data rows,
/// one record for each row, in the order of the rows. The first row that
/// gives no record ends the reading with its error.
pub fn records_from_rows(header: &Vec<String>, rows: &Vec<Vec<String>>) -> (r: Result<
    ProductList,
    ParseError,
>)
    ensures
        match catalog_records(header.deep_view(), rows.deep_view()) {
            Ok(records) => r matches Ok(list) && list@ == records,
            Err(e) => r == Err::<ProductList, ParseError>(e),
        },
{
    let layout = match read_header(header) {
        Ok(layout) => layout,
        Err(e) => {
            return Err(e);
        },
    };
    let ghost all = rows.deep_view();
    let mut products: Vec<Product> = Vec::new();
    let mut i: usize = 0;
    assert(all.take(0) =~= Seq::empty());
    assert(views_of(products@) =~= Seq::empty());
    while i < rows.len()
        invariant
            i <= rows.len(),
            all == rows.deep_view(),
            header_error(header.deep_view()) is None,
            layout == layout_of(header.deep_view()),
            rows_records(layout, all.take(i as int)) == Ok::<Seq<ProductView>, ParseError>(
                views_of(products@),
            ),
        decreases rows.len() - i,
    {
        let ghost next = all.take(i + 1);
        proof {
            assert(next.drop_last() =~= all.take(i as int));
            assert(next.last() == rows@[i as int].deep_view());
        }
        match read_row(&layout, &rows[i], i) {
            Ok(product) => {
                proof {
                    assert(views_of(products@.push(product)) =~= views_of(products@).push(
                        product@,
                    ));
                }
                products.push(product);
            },
            Err(e) => {
                proof {
                    lemma_error_stays(layout, all, i + 1);
                }
                return Err(e);
            },
        }
        i += 1;
    }
    assert(all.take(i as int) =~= all);
    Ok(ProductList { products })
}

/// The records follow the rows: where every row gives a record, there are
/// as many records as rows, and the record with index `i` is the record of
/// the row with index `i`.
pub proof fn lemma_records_follow_rows(layout: Layout, rows: Seq<Seq<Seq<char>>>, i: int)
    requires
        rows_records(layout, rows) is Ok,
        rows.len() <= usize::MAX,
        0 <= i < rows.len(),
    ensures
        rows_records(layout, rows)->Ok_0.len() == rows.len(),
        row_record(layout, rows[i], i as usize) == Ok::<ProductView, ParseError>(
            rows_records(layout, rows)->Ok_0[i],
        ),
    decreases rows.len(),
{
    lemma_records_len(layout, rows);
    let earlier = rows.drop_last();
    lemma_records_len(layout, earlier);
    if i < rows.len() - 1 {
        lemma_records_follow_rows(layout, earlier, i);
    }
}

/// Where every row gives a record, there are as many records as rows.
proof fn lemma_records_len(layout: Layout, rows: Seq<Seq<Seq<char>>>)
    ensures
        rows_records(layout, rows) matches Ok(records) ==> records.len() == rows.len(),
    decreases rows.len(),
{
    if rows.len() > 0 {
        lemma_records_len(layout, rows.drop_last());
    }
}

/// Once the first `k` rows give an error, all the rows give that error.
proof fn lemma_error_stays(layout: Layout, rows: Seq<Seq<Seq<char>>>, k: int)
    requires
        0 <= k <= rows.len(),
        rows_records(layout, rows.take(k)) is Err,
    ensures
        rows_records(layout, rows) == rows_records(layout, rows.take(k)),
    decreases rows.len() - k,
{
    if k == rows.len() {
        assert(rows.take(k) =~= rows);
    } else {
        assert(rows.drop_last().take(k) =~= rows.take(k));
        lemma_error_stays(layout, rows.drop_last(), k);
    }
}

} // verus!
