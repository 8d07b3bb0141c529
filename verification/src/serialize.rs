//! The compact XML form of a list of records.

use crate::cdata::{cdata_restored, restore_cdata_markers};
use crate::column::Column;
use crate::escape::{escape_text, xml_escape};
use crate::product::{Product, ProductList, ProductView};
use crate::text::push_char;
use vstd::prelude::*;
use vstd::string::StringExecFns;

verus! {

/// The character of one decimal digit.
pub open spec fn digit_char(digit: nat) -> char {
    if digit == 0 {
        '0'
    } else if digit == 1 {
        '1'
    } else if digit == 2 {
        '2'
    } else if digit == 3 {
        '3'
    } else if digit == 4 {
        '4'
    } else if digit == 5 {
        '5'
    } else if digit == 6 {
        '6'
    } else if digit == 7 {
        '7'
    } else if digit == 8 {
        '8'
    } else {
        '9'
    }
}

/// A number in decimal digits, without leading zeros.
pub open spec fn decimal(n: nat) -> Seq<char>
    decreases n,
{
    if n < 10 {
        seq![digit_char(n)]
    } else {
        decimal(n / 10).push(digit_char(n % 10))
    }
}

/// An element with the given name and content.
pub open spec fn element(tag: Seq<char>, content: Seq<char>) -> Seq<char> {
    "<"@ + tag + ">"@ + content + "</"@ + tag + ">"@
}

/// The `product` element of one record: one child element for each field,
/// in the order of the fields, its text escaped.
pub open spec fn product_element(product: ProductView) -> Seq<char> {
    "<product>"@ + element(Column::Id.tag_text(), decimal(product.id as nat)) + element(
        Column::ArticleNumber.tag_text(),
        xml_escape(product.article_number),
    ) + element(Column::ArticleDescription.tag_text(), xml_escape(product.article_description))
        + element(Column::OrderNumber.tag_text(), xml_escape(product.order_number)) + element(
        Column::OrderDescription.tag_text(),
        xml_escape(product.order_description),
    ) + element(Column::ArticleSearchText.tag_text(), xml_escape(product.article_search_text))
        + "</product>"@
}

/// The `product` elements of the records, one after the other.
pub open spec fn product_elements(products: Seq<ProductView>) -> Seq<char>
    decreases products.len(),
{
    if products.len() == 0 {
        Seq::empty()
    } else {
        product_elements(products.drop_last()) + product_element(products.last())
    }
}

/// The compact document of the records: no declaration, no white space
/// between elements. A list without records is a single empty element.
pub open spec fn compact_document(products: Seq<ProductView>) -> Seq<char> {
    if products.len() == 0 {
        "<productList/>"@
    } else {
        "<productList>"@ + product_elements(products) + "</productList>"@
    }
}

/// Where the element of the record with index `i` starts among the
/// `product` elements.
pub open spec fn element_offset(products: Seq<ProductView>, i: int) -> int {
    product_elements(products.take(i)).len() as int
}

/// Where the element of the record with index `i` ends.
pub open spec fn element_end(products: Seq<ProductView>, i: int) -> int {
    element_offset(products, i) + product_element(products[i]).len()
}

/// The elements of the first `k` records are the start of the elements of
/// all the records.
proof fn lemma_elements_prefix(products: Seq<ProductView>, k: int)
    requires
        0 <= k <= products.len(),
    ensures
        product_elements(products.take(k)).is_prefix_of(product_elements(products)),
    decreases products.len() - k,
{
    if k == products.len() {
        assert(products.take(k) =~= products);
    } else {
        assert(products.drop_last().take(k) =~= products.take(k));
        lemma_elements_prefix(products.drop_last(), k);
    }
}

/// The records stay in their order: in the compact document the element of
/// a record stands, whole, before the element of every later record.
pub proof fn lemma_products_in_order(products: Seq<ProductView>, i: int, j: int)
    requires
        0 <= i < j < products.len(),
    ensures
        element_end(products, i) <= element_offset(products, j),
        element_end(products, j) <= product_elements(products).len(),
        product_elements(products).subrange(
            element_offset(products, i),
            element_end(products, i),
        ) == product_element(products[i]),
        product_elements(products).subrange(
            element_offset(products, j),
            element_end(products, j),
        ) == product_element(products[j]),
{
    lemma_element_placed(products, i);
    lemma_element_placed(products, j);
    let upto = products.take(j);
    assert(upto.take(i + 1) =~= products.take(i + 1));
    lemma_elements_prefix(upto, i + 1);
}

/// The element of the record with index `i` stands at its offset.
proof fn lemma_element_placed(products: Seq<ProductView>, i: int)
    requires
        0 <= i < products.len(),
    ensures
        product_elements(products.take(i + 1)) == product_elements(products.take(i))
            + product_element(products[i]),
        element_end(products, i) <= product_elements(products).len(),
        product_elements(products).subrange(
            element_offset(products, i),
            element_end(products, i),
        ) == product_element(products[i]),
{
    let next = products.take(i + 1);
    assert(next.drop_last() =~= products.take(i));
    assert(next.last() == products[i]);
    lemma_elements_prefix(products, i + 1);
    let all = product_elements(products);
    let head = product_elements(products.take(i));
    let one = product_element(products[i]);
    let both = head + one;
    assert(both.is_prefix_of(all));
    assert(both =~= all.subrange(0, both.len() as int));
    assert(both.subrange(head.len() as int, both.len() as int) =~= one);
    assert(all.subrange(head.len() as int, both.len() as int) =~= both.subrange(
        head.len() as int,
        both.len() as int,
    ));
}

/// Appends the decimal digits of `n` to `out`.
fn push_decimal(out: &mut String, n: u32)
    ensures
        final(out)@ == old(out)@ + decimal(n as nat),
    decreases n,
{
    if n >= 10 {
        push_decimal(out, n / 10);
    }
    let digit = n % 10;
    let c = if digit == 0 {
        '0'
    } else if digit == 1 {
        '1'
    } else if digit == 2 {
        '2'
    } else if digit == 3 {
        '3'
    } else if digit == 4 {
        '4'
    } else if digit == 5 {
        '5'
    } else if digit == 6 {
        '6'
    } else if digit == 7 {
        '7'
    } else if digit == 8 {
        '8'
    } else {
        '9'
    };
    push_char(out, c);
    assert(out@ =~= old(out)@ + decimal(n as nat));
}

/// Appends an element with the given name and content to `out`.
fn push_element(out: &mut String, tag: &str, content: &str)
    ensures
        final(out)@ == old(out)@ + element(tag@, content@),
{
    out.append("<");
    out.append(tag);
    out.append(">");
    out.append(content);
    out.append("</");
    out.append(tag);
    out.append(">");
    assert(out@ =~= old(out)@ + element(tag@, content@));
}

/// Appends the `product` element of a record to `out`.
fn push_product(out: &mut String, product: &Product)
    ensures
        final(out)@ == old(out)@ + product_element(product@),
{
    out.append("<product>");
    let mut id = String::new();
    push_decimal(&mut id, product.id);
    assert(id@ =~= decimal(product.id as nat));
    push_element(out, Column::Id.tag(), id.as_str());
    push_element(
        out,
        Column::ArticleNumber.tag(),
        escape_text(product.article_number.as_str()).as_str(),
    );
    push_element(
        out,
        Column::ArticleDescription.tag(),
        escape_text(product.article_description.as_str()).as_str(),
    );
    push_element(
        out,
        Column::OrderNumber.tag(),
        escape_text(product.order_number.as_str()).as_str(),
    );
    push_element(
        out,
        Column::OrderDescription.tag(),
        escape_text(product.order_description.as_str()).as_str(),
    );
    push_element(
        out,
        Column::ArticleSearchText.tag(),
        escape_text(product.article_search_text.as_str()).as_str(),
    );
    out.append("</product>");
    assert(out@ =~= old(out)@ + product_element(product@));
}

/// Writes the records as one compact `productList` element, each record a
/// `product` element, in the order of the list.
pub fn serialize_products(list: &ProductList) -> (xml: String)
    ensures
        xml@ == compact_document(list@),
{
    let products = &list.products;
    if products.len() == 0 {
        return String::from_str("<productList/>");
    }
    let mut out = String::from_str("<productList>");
    let mut i: usize = 0;
    assert(list@.take(0) =~= Seq::empty());
    while i < products.len()
        invariant
            i <= products.len(),
            products == &list.products,
            out@ == "<productList>"@ + product_elements(list@.take(i as int)),
        decreases products.len() - i,
    {
        proof {
            let next = list@.take(i + 1);
            assert(next.drop_last() =~= list@.take(i as int));
            assert(next.last() == products@[i as int]@);
        }
        push_product(&mut out, &products[i]);
        i += 1;
    }
    assert(list@.take(i as int) =~= list@);
    out.append("</productList>");
    out
}

/// The XML form of the records before it is formatted: the compact
/// document with the delimiters of character data sections restored.
pub fn to_xml(list: &ProductList) -> (xml: String)
    ensures
        xml@ == cdata_restored(compact_document(list@)),
{
    let compact = serialize_products(list);
    restore_cdata_markers(compact.as_str())
}

} // verus!
