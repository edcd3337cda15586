//! Which pages of a cart to ask for, and when to stop.

use vstd::prelude::*;
use vstd::arithmetic::div_mod::lemma_fundamental_div_mod;
use crate::cart::{Page, Product};

verus! {

/// Where a page stands in its cart: `total` products, `per_page` of them on a page.
#[derive(Debug, Clone, Copy, PartialEq, Eq)]
pub struct Pagination {
    pub current_page: i32,
    pub per_page: i32,
    pub total: i32,
}

/// The request for one page of a cart.
#[derive(Debug, Clone, Copy, PartialEq, Eq)]
pub struct PageRequest {
    pub id: u32,
    pub page: u32,
}

/// The number of pages that `total` products fill at `per_page` products a page: `total`
/// divided by `per_page`, rounded up. It is zero where that quotient is not positive, and
/// where `per_page` is zero.
pub open spec fn page_count(total: int, per_page: int) -> int {
    if total > 0 && per_page > 0 {
        (total + per_page - 1) / per_page
    } else if total < 0 && per_page < 0 {
        (-total - per_page - 1) / (-per_page)
    } else {
        0
    }
}

/// Whether no page follows page number `page`: the next page number is beyond the page count.
pub open spec fn is_last_page(page: int, total: int, per_page: int) -> bool {
    page + 1 > page_count(total, per_page)
}

/// Rounding up: with a positive `total` and `per_page`, the page count is the number of pages
/// that hold `total` products with the last page not empty.
pub proof fn lemma_page_count_rounds_up(total: int, per_page: int)
    requires
        total > 0,
        per_page > 0,
    ensures
        (page_count(total, per_page) - 1) * per_page < total <= page_count(total, per_page)
            * per_page,
{
    let padded = total + per_page - 1;
    lemma_fundamental_div_mod(padded, per_page);
    assert(per_page * (padded / per_page) == (padded / per_page) * per_page) by (nonlinear_arith);
    assert((padded / per_page - 1) * per_page == (padded / per_page) * per_page - per_page)
        by (nonlinear_arith);
}

/// There is one such number only: a number of pages that hold `total` products with the last
/// page not empty is the page count.
pub proof fn lemma_page_count_is_unique(total: int, per_page: int, pages: int)
    requires
        total > 0,
        per_page > 0,
        (pages - 1) * per_page < total <= pages * per_page,
    ensures
        pages == page_count(total, per_page),
{
    lemma_page_count_rounds_up(total, per_page);
    let count = page_count(total, per_page);
    assert(pages == count) by (nonlinear_arith)
        requires
            per_page > 0,
            (pages - 1) * per_page < total <= pages * per_page,
            (count - 1) * per_page < total <= count * per_page,
    ;
}

/// The page count goes by the quotient alone: negating both numbers leaves it as it is.
pub proof fn lemma_page_count_negated(total: int, per_page: int)
    ensures
        page_count(-total, -per_page) == page_count(total, per_page),
{
}

/// The page count of numbers that fit in 32 bits is between zero and 2^31.
pub proof fn lemma_page_count_bounds(total: int, per_page: int)
    requires
        i32::MIN <= total <= i32::MAX,
        i32::MIN <= per_page <= i32::MAX,
    ensures
        0 <= page_count(total, per_page) <= 0x8000_0000,
{
    if total > 0 && per_page > 0 {
        lemma_page_count_rounds_up(total, per_page);
        let n = page_count(total, per_page);
        assert(n >= 1 && n <= total) by (nonlinear_arith)
            requires
                (n - 1) * per_page < total <= n * per_page,
                per_page >= 1,
                total >= 1,
        ;
    } else if total < 0 && per_page < 0 {
        lemma_page_count_rounds_up(-total, -per_page);
        let n = page_count(total, per_page);
        assert(n >= 1 && n <= -total) by (nonlinear_arith)
            requires
                (n - 1) * (-per_page) < -total <= n * (-per_page),
                -per_page >= 1,
                -total >= 1,
        ;
    }
}

/// The number of pages that are asked for when every page reports `total` and `per_page`: the
/// page count, and one page where the page count is zero.
pub open spec fn pages_asked_for(total: int, per_page: int) -> int {
    if page_count(total, per_page) >= 1 {
        page_count(total, per_page)
    } else {
        1
    }
}

/// Asking for pages 1, 2 and so on, one stops at page number `pages_asked_for`: that page is the
/// last, and no page before it is.
pub proof fn lemma_pages_asked_for(total: int, per_page: int)
    ensures
        is_last_page(pages_asked_for(total, per_page), total, per_page),
        forall|page: int|
            1 <= page < pages_asked_for(total, per_page) ==> !is_last_page(page, total, per_page),
{
}

impl Pagination {
    /// The number of pages of the cart.
    pub fn page_count(&self) -> (pages: u32)
        ensures
            pages == page_count(self.total as int, self.per_page as int),
    {
        proof {
            lemma_page_count_bounds(self.total as int, self.per_page as int);
        }
        if self.total > 0 && self.per_page > 0 {
            let total: u64 = self.total as u64;
            let per_page: u64 = self.per_page as u64;
            ((total + per_page - 1) / per_page) as u32
        } else if self.total < 0 && self.per_page < 0 {
            let total: u64 = (-(self.total as i64)) as u64;
            let per_page: u64 = (-(self.per_page as i64)) as u64;
            ((total + per_page - 1) / per_page) as u32
        } else {
            0
        }
    }

    /// Whether no page follows page number `page`.
    pub fn is_last(&self, page: u32) -> (last: bool)
        ensures
            last == is_last_page(page as int, self.total as int, self.per_page as int),
    {
        page >= self.page_count()
    }
}

/// The pages of one cart, asked for one at a time from page 1 on. It stands before one
/// request, which is its view, and is used up by that request's outcome.
#[derive(Debug)]
pub struct Paginator {
    id: u32,
    page: u32,
}

impl View for Paginator {
    type V = PageRequest;

    closed spec fn view(&self) -> PageRequest {
        PageRequest { id: self.id, page: self.page }
    }
}

/// What one request has brought, and with it whether the sequence of pages goes on.
#[derive(Debug)]
pub enum Delivery<E> {
    /// The products of a page, and the paginator that stands before the next page.
    More(Vec<Product>, Paginator),
    /// The products of the last page.
    Last(Vec<Product>),
    /// The request failed: the sequence ends here.
    Failed(E),
}

impl Paginator {
    /// The paginator of cart `id`, before page 1.
    pub fn new(id: u32) -> (pager: Paginator)
        ensures
            pager@ == (PageRequest { id, page: 1 }),
    {
        Paginator { id, page: 1 }
    }

    /// The request to make next.
    pub fn request(&self) -> (request: PageRequest)
        ensures
            request == self@,
    {
        PageRequest { id: self.id, page: self.page }
    }

    /// Takes the outcome of the request. A failure ends the sequence. A page is handed on; it is
    /// the last one exactly if the numbers it reports make its own page number the last, and
    /// otherwise the next page is the one to ask for.
    pub fn deliver<E>(self, outcome: Result<Page, E>) -> (delivery: Delivery<E>)
        ensures
            match outcome {
                Err(error) => delivery == Delivery::<E>::Failed(error),
                Ok(page) => if is_last_page(
                    self@.page as int,
                    page.pagination.total as int,
                    page.pagination.per_page as int,
                ) {
                    delivery == Delivery::<E>::Last(page.products)
                } else {
                    &&& delivery matches Delivery::More(products, rest)
                    &&& products == page.products
                    &&& rest@.id == self@.id
                    &&& rest@.page == self@.page + 1
                },
            },
    {
        match outcome {
            Err(error) => Delivery::Failed(error),
            Ok(page) => {
                if page.pagination.is_last(self.page) {
                    Delivery::Last(page.products)
                } else {
                    proof {
                        lemma_page_count_bounds(
                            page.pagination.total as int,
                            page.pagination.per_page as int,
                        );
                    }
                    Delivery::More(page.products, Paginator { id: self.id, page: self.page + 1 })
                }
            },
        }
    }
}

} // verus!
