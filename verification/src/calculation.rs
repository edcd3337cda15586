//! The calculation of a cart's totals, one page at a time.

use vstd::prelude::*;
use crate::cart::{lemma_sum_prices_concat, sum_prices, Page, Product};
use crate::discount::{
    lemma_sum_contributions_concat, total_after_discount, within, Discount, DiscountType, Sums,
    Totals,
};
use crate::paging::{
    is_last_page, lemma_page_count_bounds, pages_asked_for, Delivery, PageRequest, Paginator,
};

verus! {

/// No page moves a sum by more than this.
const PAGE_SPAN: i128 = 0xFFFF_FFFF_FFFF_FFFF_0000_0000;

/// A calculation that waits for a page of its cart.
pub struct Calculation {
    discount: Discount,
    pager: Paginator,
    sums: Sums,
    seen: Ghost<Seq<Product>>,
}

/// What a calculation stands for: its discount, the number of the page it waits for, and the
/// products of the pages before that one, in the order in which they came.
pub struct CalculationView {
    pub discount: Discount,
    pub page: u32,
    pub seen: Seq<Product>,
}

/// How a calculation goes on after a page.
pub enum Step<E> {
    /// Another page is needed: the calculation now waits for it.
    Continue(Calculation),
    /// The calculation is over, with the cart's totals or with the failure of a fetch.
    Finished(Result<Totals, E>),
}

impl View for Calculation {
    type V = CalculationView;

    closed spec fn view(&self) -> CalculationView {
        CalculationView { discount: self.discount, page: self.pager@.page, seen: self.seen@ }
    }
}

/// Whether another page is fetched after the fetch of page number `page` has had `outcome`.
pub open spec fn goes_on<E>(page: int, outcome: Result<Page, E>) -> bool {
    match outcome {
        Ok(fetched) => !is_last_page(
            page,
            fetched.pagination.total as int,
            fetched.pagination.per_page as int,
        ),
        Err(_) => false,
    }
}

/// Whether the fetching ends with `outcomes` and not before: each outcome but the last is a
/// page that is not the last one, and the last outcome is a failure or the last page.
pub open spec fn ends_fetching<E>(outcomes: Seq<Result<Page, E>>) -> bool {
    &&& outcomes.len() >= 1
    &&& forall|k: int| 0 <= k < outcomes.len() - 1 ==> goes_on(k + 1, #[trigger] outcomes[k])
    &&& !goes_on(outcomes.len() as int, outcomes.last())
}

/// Whether `outcomes` can be what `fetch` gives for pages 1, 2 and so on of cart `id`, in that
/// order.
pub open spec fn fetched_in_order<E, F: Fn(PageRequest) -> Result<Page, E>>(
    fetch: F,
    id: u32,
    outcomes: Seq<Result<Page, E>>,
) -> bool {
    forall|k: int|
        0 <= k < outcomes.len() ==> call_ensures(
            fetch,
            (PageRequest { id, page: (k + 1) as u32 },),
            #[trigger] outcomes[k],
        )
}

/// The products of the pages among `outcomes`, in order.
pub open spec fn products_of<E>(outcomes: Seq<Result<Page, E>>) -> Seq<Product>
    decreases outcomes.len(),
{
    if outcomes.len() == 0 {
        Seq::empty()
    } else {
        products_of(outcomes.drop_last()) + match outcomes.last() {
            Ok(fetched) => fetched.products@,
            Err(_) => Seq::empty(),
        }
    }
}

/// Whether `result` is what the calculation for `discount` makes of `outcomes`: the failure of
/// the last fetch, or else the totals of all products fetched.
pub open spec fn is_result_of<E>(
    result: Result<Totals, E>,
    discount: Discount,
    outcomes: Seq<Result<Page, E>>,
) -> bool {
    match outcomes.last() {
        Err(error) => result == Err::<Totals, E>(error),
        Ok(_) => result matches Ok(totals) && totals.is_of(discount, products_of(outcomes)),
    }
}

impl Calculation {
    #[verifier::type_invariant]
    closed spec fn well_formed(self) -> bool {
        &&& self.pager@.id == self.discount.id
        &&& 1 <= self.pager@.page <= 0x8000_0000
        &&& self.sums.total == sum_prices(self.seen@)
        &&& self.sums.reduced == self.discount.reduced_sum(self.seen@)
        &&& within(self.sums.total as int, (self.pager@.page - 1) * PAGE_SPAN)
        &&& within(self.sums.reduced as int, (self.pager@.page - 1) * PAGE_SPAN)
    }

    /// The calculation of the cart that `discount` names, before its first page.
    pub fn new(discount: Discount) -> (calculation: Calculation)
        ensures
            calculation@ == (CalculationView { discount, page: 1, seen: Seq::empty() }),
    {
        let pager = Paginator::new(discount.id);
        Calculation {
            discount,
            pager,
            sums: Sums { total: 0, reduced: 0 },
            seen: Ghost(Seq::empty()),
        }
    }

    /// The page to fetch next.
    pub fn request(&self) -> (request: PageRequest)
        ensures
            request == (PageRequest { id: self@.discount.id, page: self@.page }),
    {
        proof {
            use_type_invariant(self);
        }
        self.pager.request()
    }

    /// Takes the outcome of fetching the requested page.
    ///
    /// A failed fetch ends the calculation with that failure, whatever came before. A page's
    /// products are added to those seen. If the page is the last, by the numbers it reports and
    /// the number it was asked for by, the calculation ends with the totals of all products
    /// seen; if not, it waits for the next page.
    pub fn advance<E>(self, outcome: Result<Page, E>) -> (step: Step<E>)
        ensures
            match outcome {
                Err(error) => step == Step::<E>::Finished(Err(error)),
                Ok(page) => if goes_on(self@.page as int, outcome) {
                    &&& step matches Step::Continue(next)
                    &&& next@.discount == self@.discount
                    &&& next@.page == self@.page + 1
                    &&& next@.seen == self@.seen + page.products@
                } else {
                    &&& step matches Step::Finished(Ok(totals))
                    &&& totals.is_of(self@.discount, self@.seen + page.products@)
                },
            },
    {
        proof {
            use_type_invariant(&self);
        }
        let Calculation { discount, pager, sums, seen } = self;
        match pager.deliver(outcome) {
            Delivery::Failed(error) => Step::Finished(Err(error)),
            Delivery::Last(products) => {
                proof {
                    lemma_added(discount, seen@, products@);
                }
                let sums = discount.add_products(&products, sums);
                Step::Finished(Ok(discount.finish(sums)))
            },
            Delivery::More(products, rest) => {
                proof {
                    lemma_added(discount, seen@, products@);
                    let pagination = outcome->Ok_0.pagination;
                    lemma_page_count_bounds(pagination.total as int, pagination.per_page as int);
                }
                let sums = discount.add_products(&products, sums);
                Step::Continue(
                    Calculation { discount, pager: rest, sums, seen: Ghost(seen@ + products@) },
                )
            },
        }
    }
}

/// Calculates the totals of the cart that `discount` names, fetching its pages with `fetch`.
///
/// Pages are fetched one after the other from page 1 on, each only when the one before it has
/// been added up. The first failure ends the calculation and is its result. Otherwise the
/// result is the totals of the products of all pages up to the last.
pub fn calculate<E, F: Fn(PageRequest) -> Result<Page, E>>(discount: Discount, fetch: F) -> (result:
    Result<Totals, E>)
    requires
        forall|request: PageRequest| call_requires(fetch, (request,)),
    ensures
        exists|outcomes: Seq<Result<Page, E>>|
            fetched_in_order(fetch, discount.id, outcomes) && ends_fetching(outcomes)
                && is_result_of(result, discount, outcomes),
{
    let mut calculation = Calculation::new(discount);
    let ghost mut outcomes: Seq<Result<Page, E>> = Seq::empty();
    loop
        invariant
            forall|request: PageRequest| call_requires(fetch, (request,)),
            calculation@.discount == discount,
            calculation@.page == outcomes.len() + 1,
            calculation@.seen == products_of(outcomes),
            fetched_in_order(fetch, discount.id, outcomes),
            forall|k: int| 0 <= k < outcomes.len() ==> goes_on(k + 1, #[trigger] outcomes[k]),
        decreases u32::MAX - calculation@.page,
    {
        let outcome = fetch(calculation.request());
        proof {
            assert(outcomes.push(outcome).drop_last() =~= outcomes);
            outcomes = outcomes.push(outcome);
        }
        match calculation.advance(outcome) {
            Step::Continue(next) => {
                calculation = next;
            },
            Step::Finished(result) => {
                proof {
                    assert(ends_fetching(outcomes));
                    assert(is_result_of(result, discount, outcomes));
                }
                return result;
            },
        }
    }
}

/// No page is fetched after a failure: where the fetching ends with `outcomes`, a failure among
/// them is the last of them, and it is the result of the calculation.
pub proof fn lemma_failure_ends_calculation<E>(
    discount: Discount,
    outcomes: Seq<Result<Page, E>>,
    result: Result<Totals, E>,
    k: int,
)
    requires
        ends_fetching(outcomes),
        is_result_of(result, discount, outcomes),
        0 <= k < outcomes.len(),
        outcomes[k] is Err,
    ensures
        k == outcomes.len() - 1,
        result == Err::<Totals, E>(outcomes[k]->Err_0),
{
}

/// Where every fetch gives a page and every page reports the same `total` and `per_page`, the
/// fetching ends after `pages_asked_for` pages: the page count, or one page where that is zero.
pub proof fn lemma_pages_fetched<E>(outcomes: Seq<Result<Page, E>>, total: i32, per_page: i32)
    requires
        ends_fetching(outcomes),
        forall|k: int|
            0 <= k < outcomes.len() ==> (#[trigger] outcomes[k] matches Ok(fetched)
                && fetched.pagination.total == total && fetched.pagination.per_page == per_page),
    ensures
        outcomes.len() == pages_asked_for(total as int, per_page as int),
{
    let fetched = outcomes.len() as int;
    let asked = pages_asked_for(total as int, per_page as int);
    assert(!goes_on(fetched, outcomes[fetched - 1]));
    if asked < fetched {
        assert(goes_on(asked, outcomes[asked - 1]));
    }
}

/// Where the fetching ends with pages that hold no product at all, both totals are zero. A cart
/// discount with a threshold of zero or less and a negative value is left out: it raises the
/// empty cart above zero.
pub proof fn lemma_empty_cart_calculation<E>(
    discount: Discount,
    outcomes: Seq<Result<Page, E>>,
    result: Result<Totals, E>,
)
    requires
        is_result_of(result, discount, outcomes),
        outcomes.len() >= 1,
        outcomes.last() is Ok,
        products_of(outcomes).len() == 0,
        discount.discount_type is Cart ==> discount.discount_type->cart_value > 0
            || discount.discount_value >= 0,
    ensures
        result == Ok::<Totals, E>(Totals { total: 0, total_after_discount: 0 }),
{
    assert(products_of(outcomes) =~= Seq::<Product>::empty());
}

/// The sums of the products seen and of a page's products are the sums of both in a row.
proof fn lemma_added(discount: Discount, seen: Seq<Product>, products: Seq<Product>)
    ensures
        sum_prices(seen + products) == sum_prices(seen) + sum_prices(products),
        discount.reduced_sum(seen + products) == discount.reduced_sum(seen) + discount.reduced_sum(
            products,
        ),
        discount.settle(sum_prices(seen + products), discount.reduced_sum(seen + products))
            == total_after_discount(discount, seen + products),
{
    lemma_sum_prices_concat(seen, products);
    match discount.discount_type {
        DiscountType::Cart { .. } => {},
        DiscountType::Product(rule) => {
            lemma_sum_contributions_concat(rule, discount.discount_value as int, seen, products);
        },
    }
}

} // verus!
