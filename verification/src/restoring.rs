//! What restoring the delimiters of character data does to a compact
//! document: it reaches the text of the elements and nothing else.

use crate::cdata::{
    cdata_restored, cdata_section, holds_no_delimiter, lemma_escaping_makes_no_delimiter,
    lemma_restoring_is_narrow, lemma_section_survives,
};
use crate::column::Column;
use crate::escape::xml_escape;
use crate::product::ProductView;
use crate::replace::{
    lemma_nothing_to_replace, lemma_replaced_concat, lemma_replaced_keeps_first, occurs_at,
    replaced,
};
use crate::serialize::{compact_document, decimal, element, product_element, product_elements};
use vstd::prelude::*;

verus! {

/// Whether a text holds neither `&` nor `]`, the characters with which the
/// escaped delimiters start.
pub open spec fn plain(text: Seq<char>) -> bool {
    forall|i: int| 0 <= i < text.len() ==> text[i] != '&' && text[i] != ']'
}

/// The `product` element of a record after the restoring: the text of each
/// field restored, the markup as it was.
pub open spec fn restored_product(product: ProductView) -> Seq<char> {
    "<product>"@ + element(Column::Id.tag_text(), decimal(product.id as nat)) + element(
        Column::ArticleNumber.tag_text(),
        cdata_restored(xml_escape(product.article_number)),
    ) + element(
        Column::ArticleDescription.tag_text(),
        cdata_restored(xml_escape(product.article_description)),
    ) + element(Column::OrderNumber.tag_text(), cdata_restored(xml_escape(product.order_number)))
        + element(
        Column::OrderDescription.tag_text(),
        cdata_restored(xml_escape(product.order_description)),
    ) + element(
        Column::ArticleSearchText.tag_text(),
        cdata_restored(xml_escape(product.article_search_text)),
    ) + "</product>"@
}

/// The `product` elements of the records after the restoring.
pub open spec fn restored_products(products: Seq<ProductView>) -> Seq<char>
    decreases products.len(),
{
    if products.len() == 0 {
        Seq::empty()
    } else {
        restored_products(products.drop_last()) + restored_product(products.last())
    }
}

/// The compact document of the records after the restoring.
pub open spec fn restored_document(products: Seq<ProductView>) -> Seq<char> {
    if products.len() == 0 {
        "<productList/>"@
    } else {
        "<productList>"@ + restored_products(products) + "</productList>"@
    }
}

/// The `product` element of a record as it is meant to stand in the
/// document: every field escaped in its element, the search text, which
/// is the section of `search`, as a section that holds `search` escaped.
pub open spec fn written_product(product: ProductView, search: Seq<char>) -> Seq<char> {
    "<product>"@ + element(Column::Id.tag_text(), decimal(product.id as nat)) + element(
        Column::ArticleNumber.tag_text(),
        xml_escape(product.article_number),
    ) + element(Column::ArticleDescription.tag_text(), xml_escape(product.article_description))
        + element(Column::OrderNumber.tag_text(), xml_escape(product.order_number)) + element(
        Column::OrderDescription.tag_text(),
        xml_escape(product.order_description),
    ) + element(Column::ArticleSearchText.tag_text(), cdata_section(xml_escape(search)))
        + "</product>"@
}

/// A plain text is left as it is.
pub proof fn lemma_plain_is_untouched(text: Seq<char>)
    requires
        plain(text),
    ensures
        cdata_restored(text) == text,
{
    reveal_strlit("&lt;![CDATA[");
    reveal_strlit("]]&gt;");
    assert forall|at: int| !occurs_at(text, "&lt;![CDATA["@, at) by {
        if occurs_at(text, "&lt;![CDATA["@, at) {
            assert(text.subrange(at, at + 12)[0] == '&');
        }
    }
    assert forall|at: int| !occurs_at(text, "]]&gt;"@, at) by {
        if occurs_at(text, "]]&gt;"@, at) {
            assert(text.subrange(at, at + 6)[0] == ']');
        }
    }
    lemma_nothing_to_replace(text, "&lt;![CDATA["@, "<![CDATA["@);
    lemma_nothing_to_replace(text, "]]&gt;"@, "]]>"@);
}

/// Restoring stops at a tag: what stands before a `<` and what stands from
/// it on are restored apart.
pub proof fn lemma_restored_before_tag(first: Seq<char>, second: Seq<char>)
    requires
        second.len() > 0,
        second[0] == '<',
    ensures
        cdata_restored(first + second) == cdata_restored(first) + cdata_restored(second),
{
    reveal_strlit("&lt;![CDATA[");
    reveal_strlit("]]&gt;");
    let from1 = "&lt;![CDATA["@;
    let to1 = "<![CDATA["@;
    let from2 = "]]&gt;"@;
    let to2 = "]]>"@;
    let whole = first + second;
    assert forall|at: int|
        0 <= at < first.len() && first.len() < at + from1.len() implies !occurs_at(
        whole,
        from1,
        at,
    ) by {
        if occurs_at(whole, from1, at) {
            let k = first.len() - at;
            assert(whole.subrange(at, at + 12)[k] == whole[first.len() as int]);
            assert(from1[k] != '<');
        }
    }
    lemma_replaced_concat(first, second, from1, to1);
    let first1 = replaced(first, from1, to1);
    let second1 = replaced(second, from1, to1);
    lemma_replaced_keeps_first(second, from1, to1);
    let whole1 = first1 + second1;
    assert forall|at: int|
        0 <= at < first1.len() && first1.len() < at + from2.len() implies !occurs_at(
        whole1,
        from2,
        at,
    ) by {
        if occurs_at(whole1, from2, at) {
            let k = first1.len() - at;
            assert(whole1.subrange(at, at + 6)[k] == whole1[first1.len() as int]);
            assert(from2[k] != '<');
        }
    }
    lemma_replaced_concat(first1, second1, from2, to2);
}

/// Restoring starts anew behind a tag: a plain text that ends with `>` is
/// kept, and what follows it is restored on its own.
pub proof fn lemma_restored_after_tag(first: Seq<char>, second: Seq<char>)
    requires
        first.len() > 0,
        first.last() == '>',
        plain(first),
    ensures
        cdata_restored(first + second) == first + cdata_restored(second),
{
    reveal_strlit("&lt;![CDATA[");
    reveal_strlit("]]&gt;");
    let from1 = "&lt;![CDATA["@;
    let to1 = "<![CDATA["@;
    let from2 = "]]&gt;"@;
    let to2 = "]]>"@;
    lemma_plain_is_untouched(first);
    assert(replaced(first, from1, to1) == first) by {
        assert forall|at: int| !occurs_at(first, from1, at) by {
            if occurs_at(first, from1, at) {
                assert(first.subrange(at, at + 12)[0] == '&');
            }
        }
        lemma_nothing_to_replace(first, from1, to1);
    }
    assert(replaced(first, from2, to2) == first) by {
        assert forall|at: int| !occurs_at(first, from2, at) by {
            if occurs_at(first, from2, at) {
                assert(first.subrange(at, at + 6)[0] == ']');
            }
        }
        lemma_nothing_to_replace(first, from2, to2);
    }
    let whole = first + second;
    assert forall|at: int|
        0 <= at < first.len() && first.len() < at + from1.len() implies !occurs_at(
        whole,
        from1,
        at,
    ) by {
        if occurs_at(whole, from1, at) {
            let k = first.len() - 1 - at;
            assert(whole.subrange(at, at + 12)[k] == whole[first.len() - 1]);
            assert(from1[k] != '>');
        }
    }
    lemma_replaced_concat(first, second, from1, to1);
    let second1 = replaced(second, from1, to1);
    let whole1 = first + second1;
    assert forall|at: int|
        0 <= at < first.len() && first.len() < at + from2.len() implies !occurs_at(
        whole1,
        from2,
        at,
    ) by {
        if occurs_at(whole1, from2, at) {
            let k = first.len() - 1 - at;
            assert(whole1.subrange(at, at + 6)[k] == whole1[first.len() - 1]);
            assert(from2[k] != '>');
        }
    }
    lemma_replaced_concat(first, second1, from2, to2);
}

/// Restoring an element restores its text and keeps its tags, where the
/// name of the element is plain.
pub proof fn lemma_restored_element(tag: Seq<char>, content: Seq<char>)
    requires
        plain(tag),
    ensures
        cdata_restored(element(tag, content)) == element(tag, cdata_restored(content)),
        element(tag, content).len() > 0,
        element(tag, content)[0] == '<',
{
    reveal_strlit("<");
    reveal_strlit(">");
    reveal_strlit("</");
    let open = "<"@ + tag + ">"@;
    let close = "</"@ + tag + ">"@;
    assert(plain(open));
    assert(plain(close));
    assert(element(tag, content) =~= (open + content) + close);
    lemma_restored_before_tag(open + content, close);
    lemma_restored_after_tag(open, content);
    lemma_plain_is_untouched(close);
    assert(element(tag, cdata_restored(content)) =~= (open + cdata_restored(content)) + close);
}

/// The names of the elements are plain.
pub proof fn lemma_tags_are_plain(column: Column)
    ensures
        plain(column.tag_text()),
{
    reveal_strlit("id");
    reveal_strlit("articleNumber");
    reveal_strlit("articleDescription");
    reveal_strlit("orderNumber");
    reveal_strlit("orderDescription");
    reveal_strlit("articleSearchText");
}

/// A number in decimal digits is plain.
pub proof fn lemma_decimal_is_plain(n: nat)
    ensures
        plain(decimal(n)),
    decreases n,
{
    if n >= 10 {
        lemma_decimal_is_plain(n / 10);
    }
}

/// Restoring the element of a record restores the text of its fields.
pub proof fn lemma_restored_product(product: ProductView)
    ensures
        cdata_restored(product_element(product)) == restored_product(product),
        product_element(product).len() > 0,
        product_element(product)[0] == '<',
{
    reveal_strlit("<product>");
    reveal_strlit("</product>");
    let open = "<product>"@;
    let close = "</product>"@;
    let e1 = element(Column::Id.tag_text(), decimal(product.id as nat));
    let e2 = element(Column::ArticleNumber.tag_text(), xml_escape(product.article_number));
    let e3 = element(
        Column::ArticleDescription.tag_text(),
        xml_escape(product.article_description),
    );
    let e4 = element(Column::OrderNumber.tag_text(), xml_escape(product.order_number));
    let e5 = element(Column::OrderDescription.tag_text(), xml_escape(product.order_description));
    let e6 = element(
        Column::ArticleSearchText.tag_text(),
        xml_escape(product.article_search_text),
    );
    lemma_tags_are_plain(Column::Id);
    lemma_tags_are_plain(Column::ArticleNumber);
    lemma_tags_are_plain(Column::ArticleDescription);
    lemma_tags_are_plain(Column::OrderNumber);
    lemma_tags_are_plain(Column::OrderDescription);
    lemma_tags_are_plain(Column::ArticleSearchText);
    lemma_restored_element(Column::Id.tag_text(), decimal(product.id as nat));
    lemma_restored_element(Column::ArticleNumber.tag_text(), xml_escape(product.article_number));
    lemma_restored_element(
        Column::ArticleDescription.tag_text(),
        xml_escape(product.article_description),
    );
    lemma_restored_element(Column::OrderNumber.tag_text(), xml_escape(product.order_number));
    lemma_restored_element(
        Column::OrderDescription.tag_text(),
        xml_escape(product.order_description),
    );
    lemma_restored_element(
        Column::ArticleSearchText.tag_text(),
        xml_escape(product.article_search_text),
    );
    lemma_decimal_is_plain(product.id as nat);
    lemma_plain_is_untouched(decimal(product.id as nat));
    lemma_plain_is_untouched(open);
    lemma_plain_is_untouched(close);
    lemma_restored_before_tag(open + e1 + e2 + e3 + e4 + e5 + e6, close);
    lemma_restored_before_tag(open + e1 + e2 + e3 + e4 + e5, e6);
    lemma_restored_before_tag(open + e1 + e2 + e3 + e4, e5);
    lemma_restored_before_tag(open + e1 + e2 + e3, e4);
    lemma_restored_before_tag(open + e1 + e2, e3);
    lemma_restored_before_tag(open + e1, e2);
    lemma_restored_before_tag(open, e1);
    assert(product_element(product)[0] == open[0]);
}

/// A record without delimiters is written as it is meant: where neither
/// the four text fields nor the text that was wrapped as the search text
/// hold a delimiter of character data, the restored element of the record
/// holds each field escaped, and the search text as one section. The
/// entities of an escaped field read back as the field.
pub proof fn lemma_clean_record_is_written_as_meant(product: ProductView, search: Seq<char>)
    requires
        product.article_search_text == cdata_section(search),
        holds_no_delimiter(product.article_number),
        holds_no_delimiter(product.article_description),
        holds_no_delimiter(product.order_number),
        holds_no_delimiter(product.order_description),
        holds_no_delimiter(search),
    ensures
        cdata_restored(product_element(product)) == written_product(product, search),
{
    lemma_restored_product(product);
    lemma_escaping_makes_no_delimiter(product.article_number);
    lemma_restoring_is_narrow(xml_escape(product.article_number));
    lemma_escaping_makes_no_delimiter(product.article_description);
    lemma_restoring_is_narrow(xml_escape(product.article_description));
    lemma_escaping_makes_no_delimiter(product.order_number);
    lemma_restoring_is_narrow(xml_escape(product.order_number));
    lemma_escaping_makes_no_delimiter(product.order_description);
    lemma_restoring_is_narrow(xml_escape(product.order_description));
    lemma_section_survives(search);
}

/// Restoring the elements of the records restores each of them.
pub proof fn lemma_restored_products(products: Seq<ProductView>)
    ensures
        cdata_restored(product_elements(products)) == restored_products(products),
    decreases products.len(),
{
    if products.len() == 0 {
        lemma_plain_is_untouched(Seq::empty());
    } else {
        lemma_restored_products(products.drop_last());
        lemma_restored_product(products.last());
        lemma_restored_before_tag(
            product_elements(products.drop_last()),
            product_element(products.last()),
        );
    }
}

/// Restoring touches only text: the restored compact document is the
/// compact document with the text of every field restored. Every escaped
/// delimiter in a field is turned back, in the search text as in any
/// other field, and the markup around the fields stays as it was.
pub proof fn lemma_restoring_touches_only_text(products: Seq<ProductView>)
    ensures
        cdata_restored(compact_document(products)) == restored_document(products),
{
    reveal_strlit("<productList/>");
    reveal_strlit("<productList>");
    reveal_strlit("</productList>");
    if products.len() == 0 {
        lemma_plain_is_untouched("<productList/>"@);
    } else {
        let open = "<productList>"@;
        let close = "</productList>"@;
        lemma_restored_products(products);
        lemma_restored_before_tag(open + product_elements(products), close);
        lemma_restored_after_tag(open, product_elements(products));
        lemma_plain_is_untouched(close);
    }
}

} // verus!
