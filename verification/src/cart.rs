//! The data of a cart as it is delivered: products, in pages.

use vstd::prelude::*;
use crate::paging::Pagination;

verus! {

/// One product of a cart.
#[derive(Debug, Clone, PartialEq, Eq)]
pub struct Product {
    pub name: String,
    pub price: i32,
    pub collection: Option<String>,
}

/// What one fetch delivers.
#[derive(Debug, Clone, PartialEq, Eq)]
pub struct Page {
    pub products: Vec<Product>,
    pub pagination: Pagination,
}

/// The sum of the prices of `products`.
pub open spec fn sum_prices(products: Seq<Product>) -> int
    decreases products.len(),
{
    if products.len() == 0 {
        0
    } else {
        sum_prices(products.drop_last()) + products.last().price
    }
}

/// The prices of two runs of products add up to the price of the two in a row.
pub proof fn lemma_sum_prices_concat(front: Seq<Product>, back: Seq<Product>)
    ensures
        sum_prices(front + back) == sum_prices(front) + sum_prices(back),
    decreases back.len(),
{
    if back.len() == 0 {
        assert(front + back =~= front);
    } else {
        lemma_sum_prices_concat(front, back.drop_last());
        assert((front + back).drop_last() =~= front + back.drop_last());
    }
}

/// Taking one product out lowers the sum of the prices by that product's price.
pub proof fn lemma_sum_prices_remove(products: Seq<Product>, i: int)
    requires
        0 <= i < products.len(),
    ensures
        sum_prices(products) == sum_prices(products.remove(i)) + products[i].price,
    decreases products.len(),
{
    if i == products.len() - 1 {
        assert(products.remove(i) =~= products.drop_last());
    } else {
        lemma_sum_prices_remove(products.drop_last(), i);
        assert(products.remove(i).drop_last() =~= products.drop_last().remove(i));
    }
}

} // verus!
