//! Discounts and what they make of a cart's products.

use vstd::prelude::*;
use vstd::seq_lib::{to_multiset_contains, to_multiset_len, to_multiset_remove};
use crate::cart::{lemma_sum_prices_remove, sum_prices, Product};

verus! {

/// Which products a per-product discount reduces.
#[derive(Debug, Clone, PartialEq, Eq)]
pub enum ProductDiscount {
    /// The products of the named collection.
    Collection(String),
    /// The products priced at the threshold or above.
    Value(i32),
}

/// What a discount is applied to.
#[derive(Debug, Clone, PartialEq, Eq)]
pub enum DiscountType {
    /// The whole cart, once its total reaches `cart_value`.
    Cart { cart_value: i32 },
    /// Each product that the rule selects.
    Product(ProductDiscount),
}

/// A discount on the cart `id`.
#[derive(Debug, Clone, PartialEq, Eq)]
pub struct Discount {
    pub id: u32,
    pub discount_value: i32,
    pub discount_type: DiscountType,
}

/// A cart's total before and after a discount.
#[derive(Debug, Clone, Copy, PartialEq, Eq)]
pub struct Totals {
    pub total: i128,
    pub total_after_discount: i128,
}

/// Whether `rule` selects `product`. A collection is matched exactly; a product without a
/// collection is in none.
pub open spec fn applies(rule: ProductDiscount, product: Product) -> bool {
    match rule {
        ProductDiscount::Collection(name) => match product.collection {
            Some(collection) => collection@ == name@,
            None => false,
        },
        ProductDiscount::Value(threshold) => product.price >= threshold,
    }
}

/// `amount`, or zero where it is negative.
pub open spec fn at_least_zero(amount: int) -> int {
    if amount >= 0 {
        amount
    } else {
        0
    }
}

/// What `product` adds to the discounted sum under `rule`: its price less `discount_value`, not
/// below zero, where the rule selects it; its full price where not.
pub open spec fn contribution(rule: ProductDiscount, discount_value: int, product: Product) -> int {
    if applies(rule, product) {
        at_least_zero(product.price - discount_value)
    } else {
        product.price as int
    }
}

/// The sum of what each of `products` adds to the discounted sum under `rule`.
pub open spec fn sum_contributions(
    rule: ProductDiscount,
    discount_value: int,
    products: Seq<Product>,
) -> int
    decreases products.len(),
{
    if products.len() == 0 {
        0
    } else {
        sum_contributions(rule, discount_value, products.drop_last()) + contribution(
            rule,
            discount_value,
            products.last(),
        )
    }
}

/// What is left of a cart's `total` under a cart discount: `total` less `discount_value` once
/// `total` has reached `cart_value`, `total` itself below that, and in neither case less than
/// zero.
pub open spec fn cart_total_after_discount(
    total: int,
    cart_value: int,
    discount_value: int,
) -> int {
    at_least_zero(
        if total >= cart_value {
            total - discount_value
        } else {
            total
        },
    )
}

/// The total of a cart of `products` after `discount`.
pub open spec fn total_after_discount(discount: Discount, products: Seq<Product>) -> int {
    match discount.discount_type {
        DiscountType::Cart { cart_value } => cart_total_after_discount(
            sum_prices(products),
            cart_value as int,
            discount.discount_value as int,
        ),
        DiscountType::Product(rule) => sum_contributions(
            rule,
            discount.discount_value as int,
            products,
        ),
    }
}

impl Totals {
    /// Whether these are the totals of a cart of `products` under `discount`.
    pub open spec fn is_of(self, discount: Discount, products: Seq<Product>) -> bool {
        &&& self.total == sum_prices(products)
        &&& self.total_after_discount == total_after_discount(discount, products)
    }
}

/// No product moves a sum by more than this.
pub(crate) const PRODUCT_SPAN: i128 = 0x1_0000_0000;

/// The sums that a calculation keeps while the products come in: of the prices, and of what a
/// per-product discount leaves of each.
pub(crate) struct Sums {
    pub total: i128,
    pub reduced: i128,
}

/// Whether `amount` is no further from zero than `bound`.
pub(crate) open spec fn within(amount: int, bound: int) -> bool {
    -bound <= amount <= bound
}

impl ProductDiscount {
    /// Whether this rule selects `product`.
    pub fn applies_to(&self, product: &Product) -> (selected: bool)
        ensures
            selected == applies(*self, *product),
    {
        match self {
            ProductDiscount::Collection(name) => match &product.collection {
                Some(collection) => *collection == *name,
                None => false,
            },
            ProductDiscount::Value(threshold) => product.price >= *threshold,
        }
    }

    /// What `product` adds to the discounted sum when each selected product is reduced by
    /// `discount_value`.
    pub fn contribution_of(&self, discount_value: i32, product: &Product) -> (amount: i64)
        ensures
            amount == contribution(*self, discount_value as int, *product),
    {
        let price: i64 = product.price as i64;
        if self.applies_to(product) {
            let reduced: i64 = price - discount_value as i64;
            if reduced >= 0 {
                reduced
            } else {
                0
            }
        } else {
            price
        }
    }
}

impl Discount {
    /// What `products` add to the sum that a per-product discount keeps beside the total; a cart
    /// discount keeps none.
    pub(crate) open spec fn reduced_sum(self, products: Seq<Product>) -> int {
        match self.discount_type {
            DiscountType::Cart { .. } => 0,
            DiscountType::Product(rule) => sum_contributions(
                rule,
                self.discount_value as int,
                products,
            ),
        }
    }

    /// What the sums `total` and `reduced` of all `products` make under this discount.
    pub(crate) open spec fn settle(self, total: int, reduced: int) -> int {
        match self.discount_type {
            DiscountType::Cart { cart_value } => cart_total_after_discount(
                total,
                cart_value as int,
                self.discount_value as int,
            ),
            DiscountType::Product(_) => reduced,
        }
    }

    /// Adds `products` to the running sums.
    pub(crate) fn add_products(&self, products: &Vec<Product>, sums: Sums) -> (added: Sums)
        requires
            within(sums.total as int, i128::MAX - products.len() * PRODUCT_SPAN),
            within(sums.reduced as int, i128::MAX - products.len() * PRODUCT_SPAN),
        ensures
            added.total == sums.total + sum_prices(products@),
            added.reduced == sums.reduced + self.reduced_sum(products@),
            within(sum_prices(products@), products.len() * PRODUCT_SPAN),
            within(self.reduced_sum(products@), products.len() * PRODUCT_SPAN),
    {
        let mut total: i128 = sums.total;
        let mut reduced: i128 = sums.reduced;
        let mut i: usize = 0;
        while i < products.len()
            invariant
                i <= products.len(),
                within(sums.total as int, i128::MAX - products.len() * PRODUCT_SPAN),
                within(sums.reduced as int, i128::MAX - products.len() * PRODUCT_SPAN),
                total == sums.total + sum_prices(products@.take(i as int)),
                reduced == sums.reduced + self.reduced_sum(products@.take(i as int)),
                within(sum_prices(products@.take(i as int)), i * PRODUCT_SPAN),
                within(self.reduced_sum(products@.take(i as int)), i * PRODUCT_SPAN),
            decreases products.len() - i,
        {
            let product = &products[i];
            proof {
                assert(products@.take(i + 1).drop_last() =~= products@.take(i as int));
            }
            let share: i64 = match &self.discount_type {
                DiscountType::Cart { .. } => 0,
                DiscountType::Product(rule) => rule.contribution_of(self.discount_value, product),
            };
            total = total + product.price as i128;
            reduced = reduced + share as i128;
            i = i + 1;
        }
        proof {
            assert(products@.take(products.len() as int) =~= products@);
        }
        Sums { total, reduced }
    }

    /// Turns the sums of a whole cart into its totals.
    pub(crate) fn finish(&self, sums: Sums) -> (totals: Totals)
        requires
            within(sums.total as int, i128::MAX - PRODUCT_SPAN),
        ensures
            totals.total == sums.total,
            totals.total_after_discount == self.settle(sums.total as int, sums.reduced as int),
    {
        let total_after_discount: i128 = match &self.discount_type {
            DiscountType::Cart { cart_value } => {
                let left: i128 = if sums.total >= *cart_value as i128 {
                    sums.total - self.discount_value as i128
                } else {
                    sums.total
                };
                if left >= 0 {
                    left
                } else {
                    0
                }
            },
            DiscountType::Product(_) => sums.reduced,
        };
        Totals { total: sums.total, total_after_discount }
    }

    /// The totals of a cart that holds exactly `products`.
    pub fn totals_of(&self, products: &Vec<Product>) -> (totals: Totals)
        ensures
            totals.is_of(*self, products@),
    {
        let sums = self.add_products(products, Sums { total: 0, reduced: 0 });
        self.finish(sums)
    }
}

/// What two runs of products add to the discounted sum, they add in a row.
pub proof fn lemma_sum_contributions_concat(
    rule: ProductDiscount,
    discount_value: int,
    front: Seq<Product>,
    back: Seq<Product>,
)
    ensures
        sum_contributions(rule, discount_value, front + back) == sum_contributions(
            rule,
            discount_value,
            front,
        ) + sum_contributions(rule, discount_value, back),
    decreases back.len(),
{
    if back.len() == 0 {
        assert(front + back =~= front);
    } else {
        lemma_sum_contributions_concat(rule, discount_value, front, back.drop_last());
        assert((front + back).drop_last() =~= front + back.drop_last());
    }
}

/// A cart without products has a total of zero and a total after discount of zero. The one
/// exception is left out: a cart discount with a threshold of zero or less and a negative value
/// applies to the empty cart and raises it above zero.
pub proof fn lemma_empty_cart(discount: Discount)
    requires
        discount.discount_type is Cart ==> discount.discount_type->cart_value > 0
            || discount.discount_value >= 0,
    ensures
        sum_prices(Seq::<Product>::empty()) == 0,
        total_after_discount(discount, Seq::<Product>::empty()) == 0,
{
}

/// No discount drives an amount below zero: not a cart's total under a cart discount, and not
/// what a selected product adds under a per-product discount.
pub proof fn lemma_discount_stops_at_zero(
    discount: Discount,
    products: Seq<Product>,
    rule: ProductDiscount,
    product: Product,
)
    ensures
        discount.discount_type is Cart ==> total_after_discount(discount, products) >= 0,
        applies(rule, product) ==> contribution(rule, discount.discount_value as int, product) >= 0,
{
}

/// Under a cart discount, a cart whose total is below the threshold keeps its total. A total
/// below zero is left out: no total after discount is below zero.
pub proof fn lemma_cart_below_threshold(discount: Discount, products: Seq<Product>)
    requires
        discount.discount_type is Cart,
        sum_prices(products) < discount.discount_type->cart_value,
        sum_prices(products) >= 0,
    ensures
        total_after_discount(discount, products) == sum_prices(products),
{
}

/// Under a cart discount, a cart whose total has reached the threshold is reduced by the
/// discount's value, but not below zero.
pub proof fn lemma_cart_at_threshold(discount: Discount, products: Seq<Product>)
    requires
        discount.discount_type is Cart,
        sum_prices(products) >= discount.discount_type->cart_value,
    ensures
        total_after_discount(discount, products) == at_least_zero(
            sum_prices(products) - discount.discount_value,
        ),
{
}

/// Under a discount on the collection `name`, a product of that collection adds its price less
/// the discount's value, but not less than zero, to the total after discount of the products
/// before it; a product of another collection, or of none, adds its full price.
pub proof fn lemma_collection_discount(
    discount: Discount,
    name: String,
    before: Seq<Product>,
    product: Product,
)
    requires
        discount.discount_type == DiscountType::Product(ProductDiscount::Collection(name)),
    ensures
        total_after_discount(discount, before.push(product)) == total_after_discount(
            discount,
            before,
        ) + if product.collection matches Some(collection) && collection@ == name@ {
            at_least_zero(product.price - discount.discount_value)
        } else {
            product.price as int
        },
{
    assert(before.push(product).drop_last() =~= before);
}

/// Under a discount on products priced at `threshold` or above, such a product adds its price
/// less the discount's value, but not less than zero, to the total after discount of the
/// products before it; a product priced below `threshold` adds its full price.
pub proof fn lemma_value_discount(
    discount: Discount,
    threshold: i32,
    before: Seq<Product>,
    product: Product,
)
    requires
        discount.discount_type == DiscountType::Product(ProductDiscount::Value(threshold)),
    ensures
        total_after_discount(discount, before.push(product)) == total_after_discount(
            discount,
            before,
        ) + if product.price >= threshold {
            at_least_zero(product.price - discount.discount_value)
        } else {
            product.price as int
        },
{
    assert(before.push(product).drop_last() =~= before);
}

/// Every product adds its price to the total, whatever the discount.
pub proof fn lemma_total_grows_by_price(before: Seq<Product>, product: Product)
    ensures
        sum_prices(before.push(product)) == sum_prices(before) + product.price,
{
    assert(before.push(product).drop_last() =~= before);
}

/// Taking one product out lowers the discounted sum by what that product added to it.
pub proof fn lemma_sum_contributions_remove(
    rule: ProductDiscount,
    discount_value: int,
    products: Seq<Product>,
    i: int,
)
    requires
        0 <= i < products.len(),
    ensures
        sum_contributions(rule, discount_value, products) == sum_contributions(
            rule,
            discount_value,
            products.remove(i),
        ) + contribution(rule, discount_value, products[i]),
    decreases products.len(),
{
    if i == products.len() - 1 {
        assert(products.remove(i) =~= products.drop_last());
    } else {
        lemma_sum_contributions_remove(rule, discount_value, products.drop_last(), i);
        assert(products.remove(i).drop_last() =~= products.drop_last().remove(i));
    }
}

/// The order of the products does not count: two carts that hold the same products, each as
/// often as the other, have the same total and the same total after discount.
pub proof fn lemma_totals_ignore_order(
    discount: Discount,
    products: Seq<Product>,
    rearranged: Seq<Product>,
)
    requires
        products.to_multiset() == rearranged.to_multiset(),
    ensures
        sum_prices(products) == sum_prices(rearranged),
        total_after_discount(discount, products) == total_after_discount(discount, rearranged),
    decreases products.len(),
{
    to_multiset_len(products);
    to_multiset_len(rearranged);
    if products.len() > 0 {
        let last = products.last();
        let rest = products.drop_last();
        assert(products.contains(last));
        to_multiset_contains(products, last);
        to_multiset_contains(rearranged, last);
        let i = choose|i: int| 0 <= i < rearranged.len() && rearranged[i] == last;
        let others = rearranged.remove(i);
        assert(products.remove(products.len() - 1) =~= rest);
        to_multiset_remove(products, products.len() - 1);
        to_multiset_remove(rearranged, i);
        lemma_totals_ignore_order(discount, rest, others);
        lemma_sum_prices_remove(rearranged, i);
        match discount.discount_type {
            DiscountType::Cart { .. } => {},
            DiscountType::Product(rule) => {
                lemma_sum_contributions_remove(
                    rule,
                    discount.discount_value as int,
                    rearranged,
                    i,
                );
            },
        }
    }
}

} // verus!
