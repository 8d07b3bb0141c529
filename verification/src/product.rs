//! The records of a catalogue.

use vstd::prelude::*;

verus! {

/// One catalogue entry.
#[derive(Clone, Debug)]
pub struct Product {
    pub id: u32,
    pub article_number: String,
    pub article_description: String,
    pub order_number: String,
    pub order_description: String,
    pub article_search_text: String,
}

/// A catalogue entry as contracts see it.
pub ghost struct ProductView {
    pub id: u32,
    pub article_number: Seq<char>,
    pub article_description: Seq<char>,
    pub order_number: Seq<char>,
    pub order_description: Seq<char>,
    pub article_search_text: Seq<char>,
}

impl View for Product {
    type V = ProductView;

    open spec fn view(&self) -> ProductView {
        ProductView {
            id: self.id,
            article_number: self.article_number@,
            article_description: self.article_description@,
            order_number: self.order_number@,
            order_description: self.order_description@,
            article_search_text: self.article_search_text@,
        }
    }
}

/// The entries of a catalogue, in the order of its rows.
#[derive(Clone, Debug)]
pub struct ProductList {
    pub products: Vec<Product>,
}

/// The views of a list of entries.
pub open spec fn views_of(products: Seq<Product>) -> Seq<ProductView> {
    products.map_values(|product: Product| product@)
}

impl View for ProductList {
    type V = Seq<ProductView>;

    open spec fn view(&self) -> Seq<ProductView> {
        views_of(self.products@)
    }
}

} // verus!
